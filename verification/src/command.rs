use vstd::prelude::*;

use crate::doc::{Document, doc_view, wf_elems};
use crate::error::Error;
use crate::text::{lower, str_eq, to_lowercase};
use crate::wire::OpCode;

pub mod buildinfo;
pub mod error;
pub mod find;
pub mod getcmdlineopts;
pub mod getlog;
pub mod getparameter;
pub mod hello;
pub mod insert;
pub mod ismaster;
pub mod listcollections;
pub mod listdatabases;
pub mod ping;

verus! {

// The command table: every operation the server answers, looked up by the
// lowercased command name.

pub const MAX_DOCUMENT_LEN: u32 = 16777216;

pub const MAX_MSG_LEN: u32 = 48000000;

/// The bit pattern of the floating-point one, used for the `ok` marker.
pub const DOUBLE_ONE_BITS: u64 = 0x3FF0000000000000;

pub type CommandResult = Result<Document, Error>;

#[derive(Clone, Copy, Debug, PartialEq, Eq, Structural)]
pub enum Command {
    BuildInfo,
    Find,
    GetCmdLineOpts,
    GetParameter,
    Hello,
    Insert,
    IsMaster,
    ListCollections,
    ListDatabases,
    Ping,
}

/// Command lookup is case-insensitive on the name.
pub open spec fn sp_from_command(s: Seq<char>) -> Option<Command> {
    let l = lower(s);
    if l == "buildinfo"@ {
        Some(Command::BuildInfo)
    } else if l == "find"@ {
        Some(Command::Find)
    } else if l == "getcmdlineopts"@ {
        Some(Command::GetCmdLineOpts)
    } else if l == "getparameter"@ {
        Some(Command::GetParameter)
    } else if l == "hello"@ {
        Some(Command::Hello)
    } else if l == "insert"@ {
        Some(Command::Insert)
    } else if l == "ismaster"@ {
        Some(Command::IsMaster)
    } else if l == "listcollections"@ {
        Some(Command::ListCollections)
    } else if l == "listdatabases"@ {
        Some(Command::ListDatabases)
    } else if l == "ping"@ {
        Some(Command::Ping)
    } else {
        None
    }
}

/// A command answered by the storage engine rather than by the core alone.
pub open spec fn sp_storage_backed(c: Command) -> bool {
    match c {
        Command::Find => true,
        Command::Insert => true,
        Command::ListCollections => true,
        Command::ListDatabases => true,
        _ => false,
    }
}

/// The result document of a command the core answers by itself; the
/// request shape matters only to the commands that demand the modern one.
pub open spec fn sp_pure_doc(c: Command, is_msg: bool, now_millis: u64) -> Seq<
    (Seq<char>, crate::doc::SpecValue),
> {
    match c {
        Command::IsMaster => ismaster::sp_ismaster_doc(now_millis),
        Command::Hello => hello::sp_hello_doc(now_millis),
        Command::Ping => ping::sp_ping_doc(),
        Command::BuildInfo => if is_msg {
            buildinfo::sp_buildinfo_doc()
        } else {
            error::sp_error_doc(crate::error::sp_error_message(Error::InvalidOpCode))
        },
        Command::GetCmdLineOpts => if is_msg {
            getcmdlineopts::sp_getcmdlineopts_doc()
        } else {
            error::sp_error_doc(crate::error::sp_error_message(Error::InvalidOpCode))
        },
        Command::GetParameter => if is_msg {
            getparameter::sp_getparameter_doc()
        } else {
            error::sp_error_doc(crate::error::sp_error_message(Error::InvalidOpCode))
        },
        _ => Seq::empty(),
    }
}

impl Command {
    /// Parses a command name, case-insensitively.
    pub fn from_command_str(s: &str) -> (r: Option<Command>)
        ensures
            r == sp_from_command(s@),
    {
        let l = to_lowercase(s);
        let ls = l.as_str();
        if str_eq(ls, "buildinfo") {
            Some(Command::BuildInfo)
        } else if str_eq(ls, "find") {
            Some(Command::Find)
        } else if str_eq(ls, "getcmdlineopts") {
            Some(Command::GetCmdLineOpts)
        } else if str_eq(ls, "getparameter") {
            Some(Command::GetParameter)
        } else if str_eq(ls, "hello") {
            Some(Command::Hello)
        } else if str_eq(ls, "insert") {
            Some(Command::Insert)
        } else if str_eq(ls, "ismaster") {
            Some(Command::IsMaster)
        } else if str_eq(ls, "listcollections") {
            Some(Command::ListCollections)
        } else if str_eq(ls, "listdatabases") {
            Some(Command::ListDatabases)
        } else if str_eq(ls, "ping") {
            Some(Command::Ping)
        } else {
            None
        }
    }

    /// Whether answering needs the storage engine.
    pub fn is_storage_backed(&self) -> (r: bool)
        ensures
            r == sp_storage_backed(*self),
    {
        match self {
            Command::Find => true,
            Command::Insert => true,
            Command::ListCollections => true,
            Command::ListDatabases => true,
            _ => false,
        }
    }

    /// Answers a command the core handles by itself.
    pub fn execute(&self, op_code: &OpCode, now_millis: u64) -> (r: CommandResult)
        requires
            !sp_storage_backed(*self),
        ensures
            r matches Ok(d) && doc_view(d) == sp_pure_doc(*self, *op_code is OpMsg, now_millis)
                && wf_elems(doc_view(d)),
    {
        let is_msg = match op_code {
            OpCode::OpMsg(_) => true,
            OpCode::OpQuery(_) => false,
        };
        match self {
            Command::IsMaster => ismaster::run(op_code, now_millis),
            Command::Hello => hello::run(now_millis),
            Command::Ping => ping::run(),
            Command::BuildInfo => match buildinfo::run(op_code) {
                Ok(d) => Ok(d),
                Err(e) => {
                    proof {
                        reveal_strlit("invalid op code");
                        assert(crate::text::wf_string("invalid op code"@));
                    }
                    error::run(e.message())
                },
            },
            Command::GetCmdLineOpts => match getcmdlineopts::run(op_code) {
                Ok(d) => Ok(d),
                Err(e) => {
                    proof {
                        reveal_strlit("invalid op code");
                        assert(crate::text::wf_string("invalid op code"@));
                    }
                    error::run(e.message())
                },
            },
            Command::GetParameter => match getparameter::run(op_code) {
                Ok(d) => Ok(d),
                Err(e) => {
                    proof {
                        reveal_strlit("invalid op code");
                        assert(crate::text::wf_string("invalid op code"@));
                    }
                    error::run(e.message())
                },
            },
            _ => {
                proof {
                    assert(false);
                }
                vstd::pervasive::unreached()
            },
        }
    }

    /// Looks the command up and answers it; an unknown name becomes an
    /// ordinary error document, never a transport failure.
    pub fn run(command: &String, op_code: &OpCode, now_millis: u64) -> (r: CommandResult)
        requires
            sp_from_command(command@) matches Some(c) ==> !sp_storage_backed(c),
            crate::text::wf_string(command@),
        ensures
            r matches Ok(d) && wf_elems(doc_view(d)) && doc_view(d) == (
            match sp_from_command(command@) {
                Some(c) => sp_pure_doc(c, *op_code is OpMsg, now_millis),
                None => error::sp_error_doc(
                    crate::error::sp_error_message(Error::UnknownCommand(*command)),
                ),
            }),
    {
        match Command::from_command_str(command.as_str()) {
            Some(cmd) => cmd.execute(op_code, now_millis),
            None => {
                let e = Error::UnknownCommand(command.clone());
                proof {
                    reveal_strlit("unknown command: ");
                    assert(crate::text::wf_string("unknown command: "@));
                    assert(crate::text::wf_string(crate::error::sp_error_message(e)));
                }
                error::run(e.message())
            },
        }
    }
}

} // verus!
