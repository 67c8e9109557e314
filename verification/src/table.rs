//! Hash tables, as the `dashmap` crate holds them.
//!
//! A `DashMap` changes through shared references. Here each change takes the table by exclusive
//! reference, so that what a table holds is a function of the table.

use dashmap::mapref::one::Ref;
use dashmap::DashMap;
use vstd::prelude::*;

use crate::instance::{ClientHandle, Instance, InstanceView};
use crate::mapper::{PendingReq, PendingView};
use crate::protocol::lsp::{ClientId, IdView};

verus! {

/// `dashmap::DashMap`, of which nothing is known but the entries that it holds.
#[verifier::external_type_specification]
#[verifier::external_body]
#[verifier::reject_recursive_types(K)]
#[verifier::reject_recursive_types(V)]
#[verifier::reject_recursive_types(S)]
pub struct ExDashMap<K, V, S>(DashMap<K, V, S>);

/// `dashmap::mapref::one::Ref`, an entry that was looked up.
#[verifier::external_type_specification]
#[verifier::external_body]
#[verifier::reject_recursive_types(K)]
#[verifier::reject_recursive_types(V)]
pub struct ExRef<'a, K, V>(Ref<'a, K, V>);

/// The id of a request, made of types whose equality and hash `std` gives.
pub type IdKey = Result<i64, String>;

pub open spec fn key_id(key: IdKey) -> IdView {
    match key {
        Ok(number) => IdView::Number(number),
        Err(text) => IdView::Text(text@),
    }
}

/// Requests that wait for a response, by the id that the language server knows them by.
pub type PendingTable = DashMap<i64, PendingReq>;

/// The ids that the language server knows requests by, by client and the client's own id.
pub type RouteTable = DashMap<(ClientId, IdKey), i64>;

/// What a table of waiting requests holds.
pub uninterp spec fn pending_in(table: PendingTable) -> Map<i64, PendingView>;

/// What a table of request ids holds.
pub uninterp spec fn routes_in(table: RouteTable) -> Map<(ClientId, IdView), i64>;

/// `DashMap::new`: a table without entries.
#[verifier::external_body]
pub(crate) fn new_pending() -> (table: PendingTable)
    ensures
        (pending_in(table) == Map::<i64, PendingView>::empty()),
{
    DashMap::new()
}

/// `DashMap::insert`: sets the entry under the key and leaves the others as they are.
#[verifier::external_body]
pub(crate) fn insert_pending(table: &mut PendingTable, key: i64, request: PendingReq)
    ensures
        pending_in(*final(table)) == pending_in(*old(table)).insert(key, request@),
{
    table.insert(key, request);
}

/// `DashMap::remove`: takes the entry under the key out, if there is one, and leaves the others
/// as they are.
#[verifier::external_body]
pub(crate) fn remove_pending(table: &mut PendingTable, key: i64) -> (removed: Option<PendingReq>)
    ensures
        pending_in(*final(table)) == pending_in(*old(table)).remove(key),
        match removed {
            Some(request) => pending_in(*old(table)).contains_key(key) && request@ == pending_in(
                *old(table),
            )[key],
            None => !pending_in(*old(table)).contains_key(key),
        },
{
    table.remove(&key).map(|entry| entry.1)
}

/// `DashMap::new`: a table without entries.
#[verifier::external_body]
pub(crate) fn new_routes() -> (table: RouteTable)
    ensures
        (routes_in(table) == Map::<(ClientId, IdView), i64>::empty()),
{
    DashMap::new()
}

/// `DashMap::insert`: sets the entry under the key and leaves the others as they are.
#[verifier::external_body]
pub(crate) fn insert_route(table: &mut RouteTable, client_id: ClientId, id: IdKey, global_id: i64)
    ensures
        routes_in(*final(table)) == routes_in(*old(table)).insert(
            (client_id, key_id(id)),
            global_id,
        ),
{
    table.insert((client_id, id), global_id);
}

/// `DashMap::get`: the entry under the key.
#[verifier::external_body]
pub(crate) fn find_route(table: &RouteTable, client_id: ClientId, id: IdKey) -> (found: Option<i64>)
    ensures
        match found {
            Some(global_id) => routes_in(*table).contains_key((client_id, key_id(id)))
                && routes_in(*table)[(client_id, key_id(id))] == global_id,
            None => !routes_in(*table).contains_key((client_id, key_id(id))),
        },
{
    table.get(&(client_id, id)).map(|entry| *entry.value())
}

/// `DashMap::remove`: takes the entry under the key out and leaves the others as they are.
#[verifier::external_body]
pub(crate) fn remove_route(table: &mut RouteTable, client_id: ClientId, id: IdKey)
    ensures
        routes_in(*final(table)) == routes_in(*old(table)).remove((client_id, key_id(id))),
{
    table.remove(&(client_id, id));
}

/// The clients that are attached to an instance, by their ids.
pub type ClientTable = DashMap<u32, ClientHandle>;

/// The instances that run, by their workspaces.
pub type InstanceTable = DashMap<String, Instance>;

/// The ids that a table of clients has entries for.
pub uninterp spec fn clients_in(table: ClientTable) -> Set<u32>;

/// What a table of instances holds.
pub uninterp spec fn instances_in(table: InstanceTable) -> Map<Seq<char>, InstanceView>;

/// What an entry that was looked up in a table of instances holds.
pub uninterp spec fn instance_at(entry: Ref<'_, String, Instance>) -> InstanceView;

/// `DashMap::new`: a table without entries.
#[verifier::external_body]
pub(crate) fn new_clients() -> (table: ClientTable)
    ensures
        clients_in(table) == Set::<u32>::empty(),
{
    DashMap::new()
}

/// `DashMap::insert`: sets the entry under the key and leaves the others as they are.
#[verifier::external_body]
pub(crate) fn insert_client(table: &mut ClientTable, client: ClientHandle)
    ensures
        clients_in(*final(table)) == clients_in(*old(table)).insert(client.id),
{
    table.insert(client.id, client);
}

/// `DashMap::remove`: takes the entry under the key out, if there is one, and leaves the others
/// as they are.
#[verifier::external_body]
pub(crate) fn remove_client(table: &mut ClientTable, client_id: u32) -> (removed: bool)
    ensures
        clients_in(*final(table)) == clients_in(*old(table)).remove(client_id),
        removed == clients_in(*old(table)).contains(client_id),
{
    table.remove(&client_id).is_some()
}

/// `DashMap::contains_key`: whether there is an entry under the key.
#[verifier::external_body]
pub(crate) fn has_client(table: &ClientTable, client_id: u32) -> (has: bool)
    ensures
        has == clients_in(*table).contains(client_id),
{
    table.contains_key(&client_id)
}

/// `DashMap::len`: how many entries there are.
#[verifier::external_body]
pub(crate) fn count_clients(table: &ClientTable) -> (count: usize)
    ensures
        count == clients_in(*table).len(),
        (count == 0) == (clients_in(*table) == Set::<u32>::empty()),
{
    table.len()
}

/// `DashMap::new`: a table without entries.
#[verifier::external_body]
pub(crate) fn new_instances() -> (table: InstanceTable)
    ensures
        (instances_in(table) == Map::<Seq<char>, InstanceView>::empty()),
{
    DashMap::new()
}

/// `DashMap::insert`: sets the entry under the key and leaves the others as they are.
#[verifier::external_body]
pub(crate) fn insert_instance(table: &mut InstanceTable, workspace: String, instance: Instance)
    ensures
        instances_in(*final(table)) == instances_in(*old(table)).insert(workspace@, instance@),
{
    table.insert(workspace, instance);
}

/// `DashMap::remove`: takes the entry under the key out, if there is one, and leaves the others
/// as they are.
#[verifier::external_body]
pub(crate) fn remove_instance(table: &mut InstanceTable, workspace: &str) -> (removed: Option<
    Instance,
>)
    ensures
        instances_in(*final(table)) == instances_in(*old(table)).remove(workspace@),
        match removed {
            Some(instance) => instances_in(*old(table)).contains_key(workspace@) && instance@
                == instances_in(*old(table))[workspace@],
            None => !instances_in(*old(table)).contains_key(workspace@),
        },
{
    table.remove(workspace).map(|entry| entry.1)
}

/// `DashMap::get`: the entry under the key.
#[verifier::external_body]
pub(crate) fn find_instance<'a>(table: &'a InstanceTable, workspace: &str) -> (found: Option<
    Ref<'a, String, Instance>,
>)
    ensures
        match found {
            Some(entry) => instances_in(*table).contains_key(workspace@) && instance_at(entry)
                == instances_in(*table)[workspace@],
            None => !instances_in(*table).contains_key(workspace@),
        },
{
    table.get(workspace)
}

/// `Ref::value`: the instance in an entry.
#[verifier::external_body]
pub(crate) fn instance_of<'a, 'b>(entry: &'b Ref<'a, String, Instance>) -> (instance: &'b Instance)
    ensures
        instance@ == instance_at(*entry),
{
    entry.value()
}

/// `DashMap::iter`: walks over every entry once. The order is not known.
#[verifier::external_body]
pub(crate) fn workspaces_of(table: &InstanceTable) -> (workspaces: Vec<String>)
    ensures
        forall|i: int|
            0 <= i < workspaces@.len() ==> instances_in(*table).contains_key(
                (#[trigger] workspaces@[i])@,
            ),
        forall|workspace: Seq<char>| #[trigger]
            instances_in(*table).contains_key(workspace) ==> exists|i: int|
                0 <= i < workspaces@.len() && (#[trigger] workspaces@[i])@ == workspace,
        forall|i: int, j: int|
            0 <= i < j < workspaces@.len() ==> (#[trigger] workspaces@[i])@ != (
            #[trigger] workspaces@[j])@,
{
    table.iter().map(|entry| entry.key().clone()).collect()
}

} // verus!
