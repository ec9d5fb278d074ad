//! What the client keeps between runs, and the hook it may hold.

use crate::text::{ascii_chars, decimal_digits, decimal_string};
use vstd::prelude::*;

verus! {

/// Seconds that a hook may run.
pub const HOOK_TIMEOUT_SECS: u64 = 10;

/// Commands to run when something happens.
#[derive(Clone, Debug)]
pub struct Hooks {
    /// Shell command to run when a file was received.
    pub file_received: Option<String>,
}

/// The client's configuration.
#[derive(Clone, Debug)]
pub struct Config {
    pub user_id: String,
    pub server_url: String,
    pub nonce: Option<String>,
    pub hooks: Option<Hooks>,
}

/// A command to run, with the time it may take.
#[derive(Clone, Debug)]
pub struct HookCommand {
    pub program: String,
    pub args: Vec<String>,
    pub timeout_secs: u64,
}

/// The texts of the arguments.
pub open spec fn texts(args: Seq<String>) -> Seq<Seq<char>> {
    Seq::new(args.len(), |i: int| args[i]@)
}

/// The arguments with which the shell runs a hook: the command itself, then
/// the sender, the file name and the size as the command's own arguments.
pub open spec fn hook_args(command: Seq<char>, sender_id: Seq<char>, filename: Seq<char>, size: u64) -> Seq<
    Seq<char>,
> {
    seq!["-c"@, command, sender_id, filename, ascii_chars(decimal_digits(size as nat))]
}

impl Config {
    /// The command configured for a received file, if there is one.
    pub open spec fn spec_file_received_hook(&self) -> Option<Seq<char>> {
        match self.hooks {
            Some(hooks) => match hooks.file_received {
                Some(command) => Some(command@),
                None => None,
            },
            None => None,
        }
    }

    /// The configuration written after a registration that succeeded.
    pub fn registered(user_id: &str, server_url: &str, nonce: String) -> (config: Config)
        ensures
            config.user_id@ == user_id@,
            config.server_url@ == server_url@,
            config.nonce matches Some(n) && n@ == nonce@,
            config.hooks is None,
    {
        Config {
            user_id: user_id.to_owned(),
            server_url: server_url.to_owned(),
            nonce: Some(nonce),
            hooks: None,
        }
    }

    /// What to run now that `filename` of `file_size` bytes has come from
    /// `sender_id`: `sh -c <hook> <sender> <file name> <size>`, for 10 seconds
    /// at most; nothing where no hook is configured. The caller starts it and
    /// does not wait for it.
    pub fn execute_file_received_hook(&self, sender_id: &str, filename: &str, file_size: u64) -> (out:
        Option<HookCommand>)
        ensures
            match self.spec_file_received_hook() {
                Some(command) => {
                    &&& out matches Some(hook)
                    &&& hook.program@ == "sh"@
                    &&& texts(hook.args@) == hook_args(command, sender_id@, filename@, file_size)
                    &&& hook.timeout_secs == HOOK_TIMEOUT_SECS
                },
                None => out is None,
            },
    {
        match &self.hooks {
            Some(hooks) => match &hooks.file_received {
                Some(command) => {
                    let mut args: Vec<String> = Vec::new();
                    args.push("-c".to_owned());
                    args.push(command.clone());
                    args.push(sender_id.to_owned());
                    args.push(filename.to_owned());
                    args.push(decimal_string(file_size));
                    assert(texts(args@) =~= hook_args(command@, sender_id@, filename@, file_size));
                    Some(HookCommand { program: "sh".to_owned(), args, timeout_secs: HOOK_TIMEOUT_SECS })
                },
                None => None,
            },
            None => None,
        }
    }
}

} // verus!
