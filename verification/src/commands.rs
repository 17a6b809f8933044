//! Commands for the node and their routing to registered handlers.

use vstd::prelude::*;

verus! {

/// A command for the node.
#[derive(Clone, Debug, PartialEq, Eq)]
pub enum Command {
    ShareGeneration { threshold: usize },
    SignMessage { message: Vec<u8> },
    UpdateState { key: String, value: Vec<u8> },
    ConsensusProposal { round: u64, value: Vec<u8> },
}

/// The name of the handler that serves a command.
pub open spec fn handler_name_of(cmd: Command) -> Seq<char> {
    match cmd {
        Command::ShareGeneration { .. } => "share_generation"@,
        Command::SignMessage { .. } => "sign_message"@,
        Command::UpdateState { .. } => "update_state"@,
        Command::ConsensusProposal { .. } => "consensus_proposal"@,
    }
}

impl Command {
    /// The name of the handler that serves this command.
    pub fn handler_name(&self) -> (res: &'static str)
        ensures
            res@ == handler_name_of(*self),
    {
        match self {
            Command::ShareGeneration { .. } => "share_generation",
            Command::SignMessage { .. } => "sign_message",
            Command::UpdateState { .. } => "update_state",
            Command::ConsensusProposal { .. } => "consensus_proposal",
        }
    }
}

/// The handler names after registering `name`: a name already present stays where it
/// is, a new one is appended.
pub open spec fn registered(names: Seq<Seq<char>>, name: Seq<char>) -> Seq<Seq<char>> {
    if names.contains(name) {
        names
    } else {
        names.push(name)
    }
}

/// Once a handler is registered under a command kind's name, commands of that kind are
/// routed to a handler; registering never drops a handler registered before.
pub proof fn lemma_registration_routes(names: Seq<Seq<char>>, name: Seq<char>, cmd: Command)
    ensures
        registered(names, name).contains(handler_name_of(cmd)) <==> (names.contains(
            handler_name_of(cmd),
        ) || handler_name_of(cmd) == name),
{
    let h = handler_name_of(cmd);
    if !names.contains(name) {
        let r = names.push(name);
        assert(r[names.len() as int] == name);
        if names.contains(h) {
            let i = choose|i: int| 0 <= i < names.len() && names[i] == h;
            assert(r[i] == h);
        }
        if r.contains(h) && h != name {
            let i = choose|i: int| 0 <= i < r.len() && r[i] == h;
            assert(names[i] == h);
        }
    }
}

/// Registering never lists a name twice.
pub proof fn lemma_registration_keeps_names_distinct(names: Seq<Seq<char>>, name: Seq<char>)
    requires
        names.no_duplicates(),
    ensures
        registered(names, name).no_duplicates(),
{
    if !names.contains(name) {
        let r = names.push(name);
        assert forall|i: int, j: int| 0 <= i < r.len() && 0 <= j < r.len() && i != j implies r[i]
            != r[j] by {
            if i == names.len() {
                assert(r[j] == names[j]);
            } else if j == names.len() {
                assert(r[i] == names[i]);
            } else {
                assert(r[i] == names[i] && r[j] == names[j]);
            }
        }
    }
}

/// The registry of command handlers: the names under which handlers are registered.
/// The handlers themselves are held by whoever runs them, under the same names.
pub struct CommandProcessor {
    handlers: Vec<String>,
}

impl CommandProcessor {
    /// The registered handler names, in order of registration.
    pub closed spec fn handler_names(&self) -> Seq<Seq<char>> {
        self.handlers@.map_values(|h: String| h@)
    }

    /// A registry with no handlers.
    pub fn new() -> (res: CommandProcessor)
        ensures
            res.handler_names() == Seq::<Seq<char>>::empty(),
            res.handler_names().no_duplicates(),
    {
        let res = CommandProcessor { handlers: Vec::new() };
        proof {
            assert(res.handler_names() =~= Seq::<Seq<char>>::empty());
        }
        res
    }

    /// Registers a handler under `command_type`; registering a name again replaces the
    /// handler, so a name already present is not added twice.
    pub fn register_handler(&mut self, command_type: String)
        ensures
            final(self).handler_names() == registered(old(self).handler_names(), command_type@),
            old(self).handler_names().no_duplicates() ==> final(self).handler_names().no_duplicates(),
    {
        let ghost kv = command_type@;
        let ghost before = self.handlers@.map_values(|h: String| h@);
        if !self.is_registered(&command_type) {
            self.handlers.push(command_type);
            proof {
                assert(self.handlers@.map_values(|h: String| h@) =~= before.push(kv));
            }
        }
        proof {
            if before.no_duplicates() {
                lemma_registration_keeps_names_distinct(before, kv);
            }
        }
    }

    fn is_registered(&self, name: &String) -> (res: bool)
        ensures
            res == self.handler_names().contains(name@),
    {
        let ghost names = self.handlers@.map_values(|h: String| h@);
        let mut i: usize = 0;
        while i < self.handlers.len()
            invariant
                0 <= i <= self.handlers@.len(),
                names == self.handlers@.map_values(|h: String| h@),
                forall|j: int| 0 <= j < i ==> names[j] != name@,
            decreases self.handlers@.len() - i,
        {
            if self.handlers[i] == *name {
                proof {
                    assert(names[i as int] == name@);
                }
                return true;
            }
            i = i + 1;
        }
        false
    }

    /// The name of the registered handler that should run for `msg`, or `None` when no
    /// handler is registered for its kind.
    pub fn handle_message(&self, msg: &Command) -> (res: Option<&'static str>)
        ensures
            self.handler_names().contains(handler_name_of(*msg)) ==> (res matches Some(n) && n@
                == handler_name_of(*msg)),
            !self.handler_names().contains(handler_name_of(*msg)) ==> res is None,
    {
        let name = msg.handler_name();
        let owned = name.to_owned();
        if self.is_registered(&owned) {
            Some(name)
        } else {
            None
        }
    }
}

} // verus!
