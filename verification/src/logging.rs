//! Where the program writes its log, and how much.

use vstd::prelude::*;
use vstd::string::*;

use crate::text::{decimal, decimal_text, join_path, joined_path, lemma_decimal};

verus! {

/// Which of the programs writes a log.
pub enum LogKind {
    Server,
    Client,
}

pub struct LoggingOptions {
    pub dir: String,
    pub level: String,
    pub kind: LogKind,
}

/// The file of a log, below a directory: the daemon has one, each client process has its own.
pub open spec fn log_path(dir: Seq<char>, kind: LogKind, pid: u32) -> Seq<char> {
    match kind {
        LogKind::Server => joined_path(dir, "server.log"@),
        LogKind::Client => joined_path(
            dir,
            "client-"@ + decimal(pid as nat) + "/rad.log"@,
        ),
    }
}

impl LoggingOptions {
    /// The file to write to. `pid` is the process that writes.
    pub fn file_path(&self, pid: u32) -> (path: String)
        ensures
            path@ == log_path(self.dir@, self.kind, pid),
    {
        match self.kind {
            LogKind::Server => join_path(self.dir.as_str(), "server.log"),
            LogKind::Client => {
                let name = "client-".to_string().concat(decimal_text(pid as u64).as_str()).concat(
                    "/rad.log",
                );
                join_path(self.dir.as_str(), name.as_str())
            },
        }
    }
}

pub fn default_client_options() -> (options: LoggingOptions)
    ensures
        options.dir@ == "/tmp/rad"@,
        options.level@ == "info"@,
        options.kind == LogKind::Client,
{
    LoggingOptions {
        dir: "/tmp/rad".to_string(),
        level: "info".to_string(),
        kind: LogKind::Client,
    }
}

pub fn default_server_options() -> (options: LoggingOptions)
    ensures
        options.dir@ == "/tmp/rad"@,
        options.level@ == "info"@,
        options.kind == LogKind::Server,
{
    LoggingOptions {
        dir: "/tmp/rad".to_string(),
        level: "info".to_string(),
        kind: LogKind::Server,
    }
}

/// The daemon has one log file below the directory, whichever process it is, and each client
/// process has one of its own.
pub proof fn law_each_process_has_its_log(dir: Seq<char>, pid: u32, other: u32)
    requires
        dir.len() > 0,
        dir.last() != '/',
    ensures
        log_path(dir, LogKind::Server, pid) == dir + "/server.log"@,
        log_path(dir, LogKind::Client, pid) == dir + "/client-"@ + decimal(pid as nat)
            + "/rad.log"@,
        log_path(dir, LogKind::Client, pid) == log_path(dir, LogKind::Client, other) ==> pid
            == other,
        log_path(dir + "/"@, LogKind::Server, pid) == log_path(dir, LogKind::Server, pid),
        log_path(dir + "/"@, LogKind::Client, pid) == log_path(dir, LogKind::Client, pid),
{
    reveal_strlit("/");
    reveal_strlit("client-");
    reveal_strlit("/client-");
    reveal_strlit("server.log");
    reveal_strlit("/server.log");
    reveal_strlit("/rad.log");
    assert((dir + "/"@).last() == '/');
    assert(log_path(dir, LogKind::Server, pid) =~= dir + "/server.log"@);
    let head = dir + "/client-"@;
    let (mine, yours) = (
        log_path(dir, LogKind::Client, pid),
        log_path(dir, LogKind::Client, other),
    );
    assert(mine =~= head + decimal(pid as nat) + "/rad.log"@);
    assert(yours =~= head + decimal(other as nat) + "/rad.log"@);
    if mine == yours {
        let end = mine.len() - "/rad.log"@.len();
        assert(mine.subrange(head.len() as int, end) =~= decimal(pid as nat));
        assert(yours.subrange(head.len() as int, end) =~= decimal(other as nat));
        lemma_decimal(pid as nat);
        lemma_decimal(other as nat);
    }
}

} // verus!
