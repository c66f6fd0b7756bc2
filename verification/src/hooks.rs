//! The hook registry: named extension points and their ordered handlers.
//!
//! A hook is a name. Handlers are registered under a name with a priority and
//! run when the hook is dispatched: lower priorities first, and among equal
//! priorities in the order of registration. Filters thread a value through
//! the chain of handlers; actions are fired one after the other and what
//! each gave back is reported.

use crate::table::{
    holds_token, in_dispatch_order, lemma_filter_keeps_order, lemma_filter_keeps_tokens,
    lemma_insert_keeps_order, lemma_insert_keeps_tokens, lemma_rank_at_boundary,
    lemma_revoked_none, lemma_revoked_one_more, lemma_under_push, lemma_without_absent,
    lemma_without_present, rank, registered, revoked, tokens_below, tokens_distinct, under,
    without, HookToken, Registration,
};
use vstd::prelude::*;

verus! {

/// Why a handler could not do its work when its hook was dispatched.
#[derive(Clone, Debug, PartialEq, Eq)]
pub enum HandlerError {
    /// The handler needed today's date and the clock reading has none.
    DateUnavailable,
    /// The handler gave up for a reason of its own, which the text names.
    Failed(String),
}

/// What a handler gave back, with text taken as a sequence of characters.
pub type Outcome = Result<Seq<char>, HandlerError>;

/// The outcome of a handler call, as mathematical data.
pub open spec fn outcome_of(result: Result<String, HandlerError>) -> Outcome {
    match result {
        Ok(text) => Ok(text@),
        Err(error) => Err(error),
    }
}

/// A handler that turns one value into another.
///
/// A handler is immutable once built: what it needs from its surroundings it
/// holds as a copy made when it was built.
pub trait FilterHandler {
    /// Whether `outcome` is something this handler may give back for `input`.
    /// A handler that says nothing of itself may give back anything.
    open spec fn admits(&self, input: Seq<char>, outcome: Outcome) -> bool {
        true
    }

    /// Transforms `input`, or fails.
    fn apply(&self, input: &str) -> (result: Result<String, HandlerError>)
        ensures
            self.admits(input@, outcome_of(result)),
    ;
}

/// A handler that is fired for its effect. The effect is handed back as text
/// for the caller to emit.
pub trait ActionHandler {
    /// Whether `outcome` is something this handler may give back.
    /// A handler that says nothing of itself may give back anything.
    open spec fn emits(&self, outcome: Outcome) -> bool {
        true
    }

    /// Produces the text to emit, or fails.
    fn fire(&self) -> (result: Result<String, HandlerError>)
        ensures
            self.emits(outcome_of(result)),
    ;
}

/// What a filter chain hands to its next handler: the handler's output, or
/// its input where the handler failed.
pub open spec fn passed_on(input: Seq<char>, outcome: Outcome) -> Seq<char> {
    match outcome {
        Ok(output) => output,
        Err(_) => input,
    }
}

/// Whether `result` can come out of folding `initial` through the handlers of
/// `chain`, first to last, each handler getting what the one before it passed
/// on.
pub open spec fn chain_admits<F: FilterHandler>(
    chain: Seq<Registration<F>>,
    initial: Seq<char>,
    result: Seq<char>,
) -> bool
    decreases chain.len(),
{
    if chain.len() == 0 {
        result == initial
    } else {
        exists|before: Seq<char>, outcome: Outcome|
            chain_admits(chain.drop_last(), initial, before)
                && #[trigger] chain.last().handler.admits(before, outcome)
                && result == passed_on(before, outcome)
    }
}

/// Whether `report` can come out of firing the handlers of `chain`, first to
/// last: one outcome for each handler, in the same order.
pub open spec fn report_admits<A: ActionHandler>(
    chain: Seq<Registration<A>>,
    report: Seq<Outcome>,
) -> bool {
    &&& report.len() == chain.len()
    &&& forall|i: int| 0 <= i < chain.len() ==> (#[trigger] chain[i]).handler.emits(report[i])
}

/// The outcomes of `report`, as mathematical data.
pub open spec fn outcomes_of(report: Seq<Result<String, HandlerError>>) -> Seq<Outcome> {
    report.map_values(|result: Result<String, HandlerError>| outcome_of(result))
}

/// What a filter chain passes on after one handler ran on `input` and gave
/// back `result`: a failed handler leaves the value as it was.
pub fn pass_on(input: String, result: Result<String, HandlerError>) -> (next: String)
    ensures
        next@ == passed_on(input@, outcome_of(result)),
{
    match result {
        Ok(output) => output,
        Err(_) => input,
    }
}

struct HookEntry<H> {
    name: String,
    priority: i32,
    token: u64,
    handler: H,
}

impl<H> View for HookEntry<H> {
    type V = Registration<H>;

    closed spec fn view(&self) -> Registration<H> {
        Registration {
            name: self.name@,
            priority: self.priority,
            token: self.token,
            handler: self.handler,
        }
    }
}

spec fn registrations<H>(entries: Seq<HookEntry<H>>) -> Seq<Registration<H>> {
    entries.map_values(|entry: HookEntry<H>| entry@)
}

/// Puts `entry` into `entries` behind every entry of at most its priority.
fn insert_ordered<H>(entries: &mut Vec<HookEntry<H>>, entry: HookEntry<H>)
    requires
        in_dispatch_order(registrations(old(entries)@)),
        tokens_below(registrations(old(entries)@), entry.token as int),
    ensures
        registrations(final(entries)@) == registrations(old(entries)@).insert(
            rank(registrations(old(entries)@), entry.priority),
            entry@,
        ),
{
    let mut at: usize = 0;
    while at < entries.len() && entries[at].priority <= entry.priority
        invariant
            at <= entries.len(),
            *entries == *old(entries),
            forall|i: int|
                0 <= i < at ==> (#[trigger] registrations(entries@)[i]).priority <= entry.priority,
        decreases entries.len() - at,
    {
        at += 1;
    }
    proof {
        lemma_rank_at_boundary(registrations(entries@), entry.priority, at as int);
    }
    entries.insert(at, entry);
    assert(registrations(entries@) =~= registrations(old(entries)@).insert(at as int, entry@));
}

/// Takes the entry with the token `token` out of `entries`, if there is one.
fn remove_token<H>(entries: &mut Vec<HookEntry<H>>, token: u64) -> (removed: bool)
    requires
        tokens_distinct(registrations(old(entries)@)),
    ensures
        removed == holds_token(registrations(old(entries)@), token),
        registrations(final(entries)@) == without(registrations(old(entries)@), token),
{
    let mut at: usize = 0;
    while at < entries.len()
        invariant
            at <= entries.len(),
            *entries == *old(entries),
            tokens_distinct(registrations(entries@)),
            forall|i: int| 0 <= i < at ==> (#[trigger] registrations(entries@)[i]).token != token,
        decreases entries.len() - at,
    {
        if entries[at].token == token {
            proof {
                assert(registrations(entries@)[at as int].token == token);
                lemma_without_present(registrations(entries@), token, at as int);
            }
            let _ = entries.remove(at);
            assert(registrations(entries@) =~= registrations(old(entries)@).remove(at as int));
            return true;
        }
        at += 1;
    }
    proof {
        lemma_without_absent(registrations(entries@), token);
    }
    false
}

/// The dispatch table: every registered handler, filters and actions apart,
/// each kind in the order in which a dispatch runs it.
///
/// A registry is a plain value that its owner hands to whoever registers or
/// dispatches. Registering and removing need it exclusively; dispatching
/// only reads it.
pub struct HookRegistry<F, A> {
    filters: Vec<HookEntry<F>>,
    actions: Vec<HookEntry<A>>,
    next_token: u64,
}

impl<F: FilterHandler, A: ActionHandler> HookRegistry<F, A> {
    /// The registered filters, in dispatch order.
    pub closed spec fn filters(&self) -> Seq<Registration<F>> {
        registrations(self.filters@)
    }

    /// The registered actions, in dispatch order.
    pub closed spec fn actions(&self) -> Seq<Registration<A>> {
        registrations(self.actions@)
    }

    /// The sequence number that the next registration gets.
    pub closed spec fn issued(&self) -> u64 {
        self.next_token
    }

    /// The registry's invariant: both tables stand in dispatch order, no
    /// token occurs twice in a table, and every token was issued already.
    pub open spec fn wf(&self) -> bool {
        &&& in_dispatch_order(self.filters())
        &&& tokens_distinct(self.filters())
        &&& tokens_below(self.filters(), self.issued() as int)
        &&& in_dispatch_order(self.actions())
        &&& tokens_distinct(self.actions())
        &&& tokens_below(self.actions(), self.issued() as int)
    }

    /// Whether `count` more registrations can get a sequence number.
    pub open spec fn has_room(&self, count: int) -> bool {
        self.issued() + count <= u64::MAX
    }

    /// A registry without handlers, numbering its registrations from 0.
    pub fn new() -> (registry: Self)
        ensures
            registry.wf(),
            registry.filters() == Seq::<Registration<F>>::empty(),
            registry.actions() == Seq::<Registration<A>>::empty(),
            registry.issued() == 0,
    {
        Self::starting_at(0)
    }

    /// A registry without handlers, numbering its registrations from `first`.
    pub fn starting_at(first: u64) -> (registry: Self)
        ensures
            registry.wf(),
            registry.filters() == Seq::<Registration<F>>::empty(),
            registry.actions() == Seq::<Registration<A>>::empty(),
            registry.issued() == first,
    {
        let registry = HookRegistry { filters: Vec::new(), actions: Vec::new(), next_token: first };
        assert(registry.filters() =~= Seq::<Registration<F>>::empty());
        assert(registry.actions() =~= Seq::<Registration<A>>::empty());
        registry
    }

    /// Whether `count` more registrations can get a sequence number.
    pub fn can_register(&self, count: u64) -> (room: bool)
        ensures
            room == self.has_room(count as int),
    {
        count <= u64::MAX - self.next_token
    }

    /// Registers `handler` as a filter of the hook `name`.
    ///
    /// The registration gets the next sequence number and stands behind
    /// every filter of at most its priority and before every filter of a
    /// higher one. The token that comes back identifies it.
    pub fn add_filter(&mut self, name: &str, priority: i32, handler: F) -> (token: HookToken)
        requires
            old(self).wf(),
            old(self).has_room(1),
        ensures
            final(self).wf(),
            token.id == old(self).issued(),
            final(self).issued() == old(self).issued() + 1,
            final(self).actions() == old(self).actions(),
            final(self).filters() == registered(
                old(self).filters(),
                (Registration { name: name@, priority, token: token.id, handler }),
            ),
    {
        let id = self.next_token;
        let entry = HookEntry { name: name.to_owned(), priority, token: id, handler };
        proof {
            lemma_insert_keeps_order(self.filters(), entry@);
            lemma_insert_keeps_tokens(
                self.filters(),
                entry@,
                rank(self.filters(), entry.priority),
            );
        }
        insert_ordered(&mut self.filters, entry);
        self.next_token = id + 1;
        HookToken { id }
    }

    /// Registers `handler` as an action of the hook `name`.
    ///
    /// The registration gets the next sequence number and stands behind
    /// every action of at most its priority and before every action of a
    /// higher one. The token that comes back identifies it.
    pub fn add_action(&mut self, name: &str, priority: i32, handler: A) -> (token: HookToken)
        requires
            old(self).wf(),
            old(self).has_room(1),
        ensures
            final(self).wf(),
            token.id == old(self).issued(),
            final(self).issued() == old(self).issued() + 1,
            final(self).filters() == old(self).filters(),
            final(self).actions() == registered(
                old(self).actions(),
                (Registration { name: name@, priority, token: token.id, handler }),
            ),
    {
        let id = self.next_token;
        let entry = HookEntry { name: name.to_owned(), priority, token: id, handler };
        proof {
            lemma_insert_keeps_order(self.actions(), entry@);
            lemma_insert_keeps_tokens(
                self.actions(),
                entry@,
                rank(self.actions(), entry.priority),
            );
        }
        insert_ordered(&mut self.actions, entry);
        self.next_token = id + 1;
        HookToken { id }
    }

    /// Removes the registration that `token` identifies, filter or action.
    ///
    /// Every other registration stays, in the same order. The result says
    /// whether there was such a registration.
    pub fn remove(&mut self, token: HookToken) -> (removed: bool)
        requires
            old(self).wf(),
        ensures
            final(self).wf(),
            final(self).issued() == old(self).issued(),
            final(self).filters() == without(old(self).filters(), token.id),
            final(self).actions() == without(old(self).actions(), token.id),
            removed == (holds_token(old(self).filters(), token.id) || holds_token(
                old(self).actions(),
                token.id,
            )),
    {
        proof {
            let keep_filter = |registration: Registration<F>| registration.token != token.id;
            let keep_action = |registration: Registration<A>| registration.token != token.id;
            lemma_filter_keeps_order(self.filters(), keep_filter);
            lemma_filter_keeps_tokens(self.filters(), keep_filter, self.issued() as int);
            lemma_filter_keeps_order(self.actions(), keep_action);
            lemma_filter_keeps_tokens(self.actions(), keep_action, self.issued() as int);
        }
        let among_filters = remove_token(&mut self.filters, token.id);
        let among_actions = remove_token(&mut self.actions, token.id);
        among_filters || among_actions
    }

    /// Removes every registration that one of `tokens` identifies.
    ///
    /// Every other registration stays, in the same order.
    pub fn remove_all(&mut self, tokens: &Vec<HookToken>)
        requires
            old(self).wf(),
        ensures
            final(self).wf(),
            final(self).issued() == old(self).issued(),
            final(self).filters() == revoked(old(self).filters(), tokens@),
            final(self).actions() == revoked(old(self).actions(), tokens@),
    {
        let mut at: usize = 0;
        proof {
            lemma_revoked_none(self.filters());
            lemma_revoked_none(self.actions());
            assert(tokens@.take(0) =~= Seq::<HookToken>::empty());
        }
        while at < tokens.len()
            invariant
                at <= tokens.len(),
                self.wf(),
                self.issued() == old(self).issued(),
                self.filters() == revoked(old(self).filters(), tokens@.take(at as int)),
                self.actions() == revoked(old(self).actions(), tokens@.take(at as int)),
            decreases tokens.len() - at,
        {
            let token = tokens[at];
            proof {
                lemma_revoked_one_more(old(self).filters(), tokens@.take(at as int), token);
                lemma_revoked_one_more(old(self).actions(), tokens@.take(at as int), token);
                assert(tokens@.take(at + 1) =~= tokens@.take(at as int).push(token));
            }
            let _ = self.remove(token);
            at += 1;
        }
        proof {
            assert(tokens@.take(at as int) =~= tokens@);
        }
    }

    /// Folds `initial` through the filters of the hook `name`, in dispatch
    /// order: each filter gets what the one before it passed on, and where a
    /// filter fails its input is passed on unchanged.
    ///
    /// A hook without filters gives `initial` back.
    pub fn apply_filters(&self, name: &str, initial: String) -> (result: String)
        ensures
            chain_admits(under(self.filters(), name@), initial@, result@),
            under(self.filters(), name@).len() == 0 ==> result@ == initial@,
    {
        let wanted = name.to_owned();
        let ghost table = self.filters();
        let mut value = initial;
        let mut at: usize = 0;
        proof {
            assert(table.take(0) =~= Seq::<Registration<F>>::empty());
            reveal(Seq::filter);
        }
        while at < self.filters.len()
            invariant
                at <= self.filters.len(),
                table == self.filters(),
                table.len() == self.filters.len(),
                wanted@ == name@,
                chain_admits(under(table.take(at as int), name@), initial@, value@),
            decreases self.filters.len() - at,
        {
            let entry = &self.filters[at];
            proof {
                assert(table.take(at + 1) =~= table.take(at as int).push(entry@));
                lemma_under_push(table.take(at as int), entry@, name@);
            }
            if entry.name == wanted {
                let ghost before = value@;
                let result = entry.handler.apply(value.as_str());
                value = pass_on(value, result);
                proof {
                    let chain = under(table.take(at + 1), name@);
                    assert(chain.drop_last() =~= under(table.take(at as int), name@));
                    assert(chain.last().handler.admits(before, outcome_of(result)));
                }
            }
            at += 1;
        }
        proof {
            assert(table.take(at as int) =~= table);
        }
        value
    }

    /// Fires the actions of the hook `name`, in dispatch order, and reports
    /// what each gave back. A failing action does not keep the later ones
    /// from running: its failure stands at its place in the report.
    pub fn run_action(&self, name: &str) -> (report: Vec<Result<String, HandlerError>>)
        ensures
            report_admits(under(self.actions(), name@), outcomes_of(report@)),
    {
        let wanted = name.to_owned();
        let ghost table = self.actions();
        let mut report: Vec<Result<String, HandlerError>> = Vec::new();
        let mut at: usize = 0;
        proof {
            assert(table.take(0) =~= Seq::<Registration<A>>::empty());
            reveal(Seq::filter);
        }
        while at < self.actions.len()
            invariant
                at <= self.actions.len(),
                table == self.actions(),
                table.len() == self.actions.len(),
                wanted@ == name@,
                report_admits(under(table.take(at as int), name@), outcomes_of(report@)),
            decreases self.actions.len() - at,
        {
            let entry = &self.actions[at];
            proof {
                assert(table.take(at + 1) =~= table.take(at as int).push(entry@));
                lemma_under_push(table.take(at as int), entry@, name@);
            }
            if entry.name == wanted {
                let ghost earlier = outcomes_of(report@);
                let result = entry.handler.fire();
                report.push(result);
                proof {
                    assert(outcomes_of(report@) =~= earlier.push(outcome_of(result)));
                }
            }
            at += 1;
        }
        proof {
            assert(table.take(at as int) =~= table);
        }
        report
    }
}

/// A chain without handlers gives back exactly what it was given.
pub proof fn lemma_empty_chain_is_identity<F: FilterHandler>(
    initial: Seq<char>,
    result: Seq<char>,
)
    ensures
        chain_admits(Seq::<Registration<F>>::empty(), initial, result) <==> result == initial,
{
}

} // verus!
