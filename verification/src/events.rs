//! The event dispatch layer: handlers bound to command names, a pluggable
//! token splitter, and the single/multi-command policy.

use vstd::prelude::*;
use vstd::rwlock::{RwLock, RwLockPredicate};
use std::sync::Arc;
use crate::dict::{
    assoc_get, assoc_has, assoc_remove, assoc_set, assoc_wf, lemma_assoc_remove_clears,
    lemma_assoc_set_wf, lemma_deep_entries_set, Dict,
};
use crate::engine::{
    lemma_find_cmd, lemma_find_param, spec_find_cmd, spec_sequential, InvocationModel, ParamValue,
};
use crate::errors::{ClitcError, CommandModeError, NoEventError, UnknownCommandError};
use crate::schema::{CliParameters, Param};
use crate::text::{split_whitespace_tokens, whitespace_tokens};

verus! {

/// A token-splitting strategy the dispatcher calls through.
pub trait Split {
    /// The tokens this strategy cuts `s` into.
    spec fn split_spec(&self, s: Seq<char>) -> Seq<Seq<char>>;

    /// Cuts `s` into tokens.
    fn split(&self, s: String) -> (r: Vec<String>)
        ensures
            r.deep_view() == self.split_spec(s@),
    ;
}

/// The default splitter: the tokens are the maximal runs between
/// whitespace.
pub struct WhitespaceSplitter;

impl Split for WhitespaceSplitter {
    open spec fn split_spec(&self, s: Seq<char>) -> Seq<Seq<char>> {
        whitespace_tokens(s)
    }

    fn split(&self, s: String) -> (r: Vec<String>) {
        split_whitespace_tokens(s.as_str())
    }
}

/// The slot's lock invariant: any optional text may be stored.
pub struct SlotPred;

impl RwLockPredicate<Option<String>> for SlotPred {
    open spec fn inv(self, v: Option<String>) -> bool {
        true
    }
}

/// The shared output slot an emit handler may fill for the caller to read
/// after dispatch returns; guarded for access from another thread.
#[derive(Clone)]
pub struct EmitSlot {
    cell: Arc<RwLock<Option<String>, SlotPred>>,
}

impl EmitSlot {
    /// An empty slot.
    pub fn new() -> EmitSlot {
        EmitSlot { cell: Arc::new(RwLock::new(None, Ghost(SlotPred))) }
    }

    /// Fills the slot, dropping whatever it held.
    pub fn put(&self, val: String) {
        let (_held, handle) = self.cell.acquire_write();
        handle.release_write(Some(val));
    }

    /// Empties the slot and yields what it held.
    pub fn take(&self) -> Option<String> {
        let (held, handle) = self.cell.acquire_write();
        handle.release_write(None);
        held
    }
}

/// A handler receiving the context and the matched values.
pub trait PlainHandler<T> {
    /// Called with the cloned context and the command's typed values.
    fn on_command(&self, context: T, args: Dict<ParamValue>);
}

/// A handler additionally receiving every command's help text.
pub trait InfoHandler<T> {
    /// Called with the context, the command's typed values, and the help
    /// text of every command, keyed by canonical name.
    fn on_command(&self, context: T, args: Dict<ParamValue>, info: Dict<Vec<String>>);
}

/// A handler additionally receiving a shared output slot it may fill.
pub trait EmitHandler<T> {
    /// Called with the context, the slot to fill, and the command's typed
    /// values.
    fn on_command(&self, context: T, out: EmitSlot, args: Dict<ParamValue>);
}

/// A handler that ignores its command entirely; also the natural filler for
/// an unused handler type parameter.
pub struct SilentHandler;

impl<T> PlainHandler<T> for SilentHandler {
    fn on_command(&self, _context: T, _args: Dict<ParamValue>) {
    }
}

impl<T> InfoHandler<T> for SilentHandler {
    fn on_command(&self, _context: T, _args: Dict<ParamValue>, _info: Dict<Vec<String>>) {
    }
}

impl<T> EmitHandler<T> for SilentHandler {
    fn on_command(&self, _context: T, _out: EmitSlot, _args: Dict<ParamValue>) {
    }
}

/// A handler bound to one command name.
#[derive(Clone)]
pub enum Event<P, I, E> {
    /// A plain callback.
    Callback(P),
    /// A callback that also receives every command's help text.
    InfoCallback(I),
    /// A callback that may fill the shared output slot it is given.
    Emit(EmitSlot, E),
}

/// The help text of the commands `ps` on top of `acc`, keyed by canonical
/// name.
pub open spec fn spec_info_map(ps: Seq<Param>, acc: Seq<(Seq<char>, Seq<Seq<char>>)>) -> Seq<
    (Seq<char>, Seq<Seq<char>>),
>
    decreases ps.len(),
{
    if ps.len() == 0 {
        acc
    } else {
        spec_info_map(ps.drop_first(), assoc_set(acc, ps[0].name@, ps[0].spec_info()))
    }
}

/// The dispatch outcome for the parse result `parsed` against the bindings
/// `events` under the single-command policy flag: no match at all is an
/// unknown command, a second match under the single-command policy is a
/// policy failure, and otherwise the batch succeeds exactly when every
/// matched command has a handler bound.
pub open spec fn spec_dispatch<P, I, E>(
    parsed: InvocationModel,
    events: Seq<(Seq<char>, Event<P, I, E>)>,
    single_cmd: bool,
) -> Result<(), ClitcError> {
    if parsed.len() == 0 {
        Err(ClitcError::UnknownCommand(UnknownCommandError))
    } else if parsed.len() > 1 && single_cmd {
        Err(ClitcError::CommandMode(CommandModeError))
    } else if forall|i: int| 0 <= i < parsed.len() ==> assoc_has(events, parsed[i].0) {
        Ok(())
    } else {
        Err(ClitcError::NoEvent(NoEventError))
    }
}

/// Routes matched commands to bound handlers.  The schema is forced into
/// sequential mode at construction and stays there.
pub struct EventHandler<S, T, P, I, E> {
    /// The schema, held in sequential mode.
    pub cli_params: CliParameters,
    /// The registry: one handler per bound command name.
    pub events: Dict<Event<P, I, E>>,
    /// The token-splitting strategy.
    pub split_fn: S,
    /// Whether more than one matched command in a call is refused.
    pub single_cmd: bool,
    /// The context cloned into every handler invocation.
    pub context: T,
}

impl<S: Split, T: Clone, P: PlainHandler<T>, I: InfoHandler<T>, E: EmitHandler<T>> EventHandler<
    S,
    T,
    P,
    I,
    E,
> {
    /// The shape a dispatcher keeps: sequential mode on, registry keys
    /// pairwise distinct.
    pub open spec fn wf(&self) -> bool {
        &&& self.cli_params.1 == true
        &&& self.events.wf()
    }

    /// Builds a dispatcher over the schema (forced into sequential mode)
    /// with no handler bound yet.
    pub fn new(cli_params: CliParameters, split_fn: S, single_cmd: bool, context: T) -> (r:
        EventHandler<S, T, P, I, E>)
        ensures
            r.wf(),
            r.cli_params.0 == cli_params.0,
            r.cli_params.1 == true,
            r.events@ == Seq::<(Seq<char>, Event<P, I, E>)>::empty(),
            r.split_fn == split_fn,
            r.single_cmd == single_cmd,
            r.context == context,
    {
        let mut event_handler = EventHandler {
            cli_params,
            events: Dict::new(),
            split_fn,
            single_cmd,
            context,
        };
        event_handler.cli_params.set_sequential_processing(true);
        event_handler
    }

    /// The help text of every command, keyed by canonical name.
    fn get_info(&self) -> (r: Dict<Vec<String>>)
        ensures
            r.wf(),
            r.deep_view() == spec_info_map(self.cli_params.0@, Seq::empty()),
    {
        let ghost ps = self.cli_params.0@;
        let mut r: Dict<Vec<String>> = Dict::new();
        proof {
            r.lemma_deep_view();
            assert(r.deep_view() =~= Seq::<(Seq<char>, Seq<Seq<char>>)>::empty());
            assert(ps.skip(0) =~= ps);
        }
        let params = self.cli_params.iter();
        let mut i: usize = 0;
        while i < params.len()
            invariant
                0 <= i <= ps.len(),
                ps == params@,
                r.wf(),
                spec_info_map(ps, Seq::empty()) == spec_info_map(ps.skip(i as int), r.deep_view()),
            decreases ps.len() - i,
        {
            proof {
                assert(ps.skip(i as int)[0] == ps[i as int]);
                assert(ps.skip(i as int).drop_first() =~= ps.skip(i as int + 1));
            }
            let text = params[i].info();
            proof {
                r.lemma_deep_view();
                lemma_deep_entries_set(r@, ps[i as int].name@, text);
            }
            r.insert(params[i].name.clone(), text);
            proof {
                r.lemma_deep_view();
            }
            i += 1;
        }
        proof {
            assert(ps.skip(ps.len() as int) =~= Seq::<Param>::empty());
        }
        r
    }

    /// Binds `event` to the command `name`, replacing an earlier binding.
    pub fn attach(&mut self, name: String, event: Event<P, I, E>)
        requires
            old(self).wf(),
        ensures
            final(self).wf(),
            final(self).events@ == assoc_set(old(self).events@, name@, event),
            final(self).cli_params == old(self).cli_params,
            final(self).split_fn == old(self).split_fn,
            final(self).single_cmd == old(self).single_cmd,
            final(self).context == old(self).context,
    {
        self.events.insert(name, event);
    }

    /// Unbinds the command `name` and yields the handler it carried, if
    /// any.
    pub fn disattach(&mut self, name: &str) -> (r: Option<Event<P, I, E>>)
        requires
            old(self).wf(),
        ensures
            final(self).wf(),
            final(self).events@ == assoc_remove(old(self).events@, name@),
            !assoc_has(final(self).events@, name@),
            r == assoc_get(old(self).events@, name@),
            final(self).cli_params == old(self).cli_params,
            final(self).split_fn == old(self).split_fn,
            final(self).single_cmd == old(self).single_cmd,
            final(self).context == old(self).context,
    {
        self.events.remove(name)
    }

    /// Invokes the handler bound to `key` on `args`; a command with no
    /// bound handler is the missing-handler failure.
    fn invoke_event(&self, key: &String, args: Dict<ParamValue>) -> (r: Result<(), ClitcError>)
        ensures
            r is Ok <==> assoc_has(self.events@, key@),
            r is Err ==> r == Err::<(), ClitcError>(ClitcError::NoEvent(NoEventError)),
    {
        match self.events.get(key.as_str()) {
            Some(evt) => {
                match evt {
                    Event::Callback(callback) => callback.on_command(self.context.clone(), args),
                    Event::InfoCallback(callback) => callback.on_command(
                        self.context.clone(),
                        args,
                        self.get_info(),
                    ),
                    Event::Emit(handle, callback) => callback.on_command(
                        self.context.clone(),
                        handle.clone(),
                        args,
                    ),
                }
                Ok(())
            },
            None => Err(ClitcError::NoEvent(NoEventError)),
        }
    }

    /// Tokenizes `data`, parses the tokens with the sequential strategy,
    /// checks the single-command policy, and invokes each matched command's
    /// handler in match order; the first command without a handler stops
    /// the batch.
    pub fn pass_command(&self, data: String) -> (r: Result<(), ClitcError>)
        requires
            self.wf(),
        ensures
            r == spec_dispatch(
                spec_sequential(
                    self.cli_params.0@,
                    self.split_fn.split_spec(data@),
                    Seq::empty(),
                ),
                self.events@,
                self.single_cmd,
            ),
    {
        let ghost model = spec_sequential(
            self.cli_params.0@,
            self.split_fn.split_spec(data@),
            Seq::empty(),
        );
        let tokens = self.split_fn.split(data);
        let mut parsed = self.cli_params.parse_vec(tokens);
        proof {
            parsed.lemma_deep_view();
            assert(parsed.deep_view() == model);
            assert(parsed@.len() == model.len());
            assert(forall|k: int| 0 <= k < parsed@.len() ==> parsed@[k].0 == model[k].0);
        }
        if parsed.is_empty() {
            return Err(ClitcError::UnknownCommand(UnknownCommandError));
        }
        if parsed.len() > 1 && self.single_cmd {
            return Err(ClitcError::CommandMode(CommandModeError));
        }
        let ghost all = parsed@;
        let ghost mut i: int = 0;
        proof {
            assert(all.skip(0) =~= all);
        }
        loop
            invariant
                0 <= i <= all.len(),
                parsed.wf(),
                parsed@ == all.skip(i),
                all.len() == model.len(),
                model == spec_sequential(
                    self.cli_params.0@,
                    self.split_fn.split_spec(data@),
                    Seq::empty(),
                ),
                forall|k: int| 0 <= k < all.len() ==> all[k].0 == model[k].0,
                forall|k: int| 0 <= k < i ==> assoc_has(self.events@, model[k].0),
                self.wf(),
                model.len() > 0,
                !(model.len() > 1 && self.single_cmd),
            decreases all.len() - i,
        {
            let next = parsed.pop_first();
            match next {
                None => {
                    proof {
                        assert(i == all.len());
                    }
                    return Ok(());
                },
                Some((cmd, args)) => {
                    proof {
                        assert(all.skip(i)[0] == all[i]);
                        assert(all.skip(i).drop_first() =~= all.skip(i + 1));
                        assert(cmd@ == model[i].0);
                    }
                    match self.invoke_event(&cmd, args) {
                        Ok(()) => {},
                        Err(e) => {
                            return Err(e);
                        },
                    }
                    proof {
                        i = i + 1;
                    }
                },
            }
        }
    }
}

/// After binding a handler to a name and then unbinding that same name, no
/// handler is bound to it, whatever the registry held before; a dispatch
/// whose parse matched exactly that command then fails for want of a
/// handler.
pub proof fn lemma_disattach_after_attach<P, I, E>(
    events: Seq<(Seq<char>, Event<P, I, E>)>,
    name: Seq<char>,
    event: Event<P, I, E>,
    parsed: InvocationModel,
    single_cmd: bool,
)
    requires
        assoc_wf(events),
        parsed.len() == 1,
        parsed[0].0 == name,
    ensures
        ({
            let after = assoc_remove(assoc_set(events, name, event), name);
            &&& !assoc_has(after, name)
            &&& spec_dispatch::<P, I, E>(parsed, after, single_cmd) == Err::<(), ClitcError>(
                ClitcError::NoEvent(NoEventError),
            )
        }),
{
    lemma_assoc_set_wf(events, name, event);
    lemma_assoc_remove_clears(assoc_set(events, name, event), name);
}

/// A token stream in which no token names any command parses to nothing
/// under the sequential strategy, so its dispatch fails as an unknown
/// command, whatever the registry and the policy.
pub proof fn lemma_unknown_command<P, I, E>(
    ps: Seq<Param>,
    toks: Seq<Seq<char>>,
    events: Seq<(Seq<char>, Event<P, I, E>)>,
    single_cmd: bool,
)
    requires
        forall|i: int, j: int|
            0 <= i < toks.len() && 0 <= j < ps.len() ==> !ps[j].spec_matches(toks[i]),
    ensures
        spec_sequential(ps, toks, Seq::empty()) == Seq::<
            (Seq<char>, Seq<(Seq<char>, crate::engine::ValueModel)>),
        >::empty(),
        spec_dispatch::<P, I, E>(
            spec_sequential(ps, toks, Seq::empty()),
            events,
            single_cmd,
        ) == Err::<(), ClitcError>(ClitcError::UnknownCommand(UnknownCommandError)),
{
    if toks.len() == 0 {
    } else {
        lemma_find_cmd(ps, toks);
        match spec_find_cmd(ps, toks) {
            Some(ij) => {
                lemma_find_param(ps, toks[ij.0]);
                assert(false);
            },
            None => {},
        }
    }
}

} // verus!
