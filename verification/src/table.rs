//! Tables of registrations and the order in which a dispatch runs them.
//!
//! A table is a sequence of registrations. It stands in dispatch order when
//! lower priorities come first and, among equal priorities, earlier
//! registrations come first. This module says what registering and removing
//! do to a table and proves what follows: the order is kept, it is the only
//! one, and what is registered can be taken out again without a trace.

use vstd::prelude::*;

verus! {

/// Identifies one registration, for removing it later.
#[derive(Clone, Copy, Debug, PartialEq, Eq, Structural)]
pub struct HookToken {
    pub id: u64,
}

/// One registration, as mathematical data: the hook's name, the priority,
/// the sequence number it was registered under, and the handler.
pub ghost struct Registration<H> {
    pub name: Seq<char>,
    pub priority: i32,
    pub token: u64,
    pub handler: H,
}

/// Whether `first` is dispatched before `second`: by lower priority, and
/// among equal priorities by earlier registration.
pub open spec fn precedes<H>(first: Registration<H>, second: Registration<H>) -> bool {
    first.priority < second.priority || (first.priority == second.priority && first.token
        < second.token)
}

/// Whether `table` stands in dispatch order.
pub open spec fn in_dispatch_order<H>(table: Seq<Registration<H>>) -> bool {
    forall|i: int, j: int|
        0 <= i < j < table.len() ==> precedes(#[trigger] table[i], #[trigger] table[j])
}

/// Whether no two registrations of `table` share a token.
pub open spec fn tokens_distinct<H>(table: Seq<Registration<H>>) -> bool {
    forall|i: int, j: int|
        0 <= i < j < table.len() ==> (#[trigger] table[i]).token != (#[trigger] table[j]).token
}

/// Whether every token of `table` is below `bound`.
pub open spec fn tokens_below<H>(table: Seq<Registration<H>>, bound: int) -> bool {
    forall|i: int| 0 <= i < table.len() ==> (#[trigger] table[i]).token < bound
}

/// How many registrations of `table` have a priority of at most `priority`.
/// In a table in dispatch order this is the place of the first registration
/// with a higher priority.
pub open spec fn rank<H>(table: Seq<Registration<H>>, priority: i32) -> int
    decreases table.len(),
{
    if table.len() == 0 {
        0
    } else {
        rank(table.drop_last(), priority) + if table.last().priority <= priority {
            1int
        } else {
            0int
        }
    }
}

/// The registration `added` put into `table` at the place that its priority
/// gives it: behind every registration of at most its priority.
pub open spec fn registered<H>(table: Seq<Registration<H>>, added: Registration<H>) -> Seq<
    Registration<H>,
> {
    table.insert(rank(table, added.priority), added)
}

/// The registrations of `table` under the hook `name`, in the order of `table`.
pub open spec fn under<H>(table: Seq<Registration<H>>, name: Seq<char>) -> Seq<Registration<H>> {
    table.filter(|registration: Registration<H>| registration.name == name)
}

/// The registrations of `table` but those with the token `token`, in the
/// order of `table`.
pub open spec fn without<H>(table: Seq<Registration<H>>, token: u64) -> Seq<Registration<H>> {
    table.filter(|registration: Registration<H>| registration.token != token)
}

/// Whether some registration of `table` has the token `token`.
pub open spec fn holds_token<H>(table: Seq<Registration<H>>, token: u64) -> bool {
    exists|i: int| 0 <= i < table.len() && (#[trigger] table[i]).token == token
}

/// The registrations of `table` but those that one of `tokens` identifies,
/// in the order of `table`.
pub open spec fn revoked<H>(table: Seq<Registration<H>>, tokens: Seq<HookToken>) -> Seq<
    Registration<H>,
> {
    table.filter(
        |registration: Registration<H>| !tokens.contains(HookToken { id: registration.token }),
    )
}

/// A registration with its handler taken by its view.
pub open spec fn viewed_one<H: View>(registration: Registration<H>) -> Registration<H::V> {
    Registration {
        name: registration.name,
        priority: registration.priority,
        token: registration.token,
        handler: registration.handler@,
    }
}

/// A table with each handler taken by its view.
pub open spec fn viewed<H: View>(table: Seq<Registration<H>>) -> Seq<Registration<H::V>> {
    table.map_values(|registration: Registration<H>| viewed_one(registration))
}

/// Ordering is determined: two tables in dispatch order that hold the same
/// registrations are the same table. The order in which handlers run thus
/// depends on nothing but which registrations there are, their priorities
/// and their sequence numbers.
pub proof fn lemma_dispatch_order_is_unique<H>(
    first: Seq<Registration<H>>,
    second: Seq<Registration<H>>,
)
    requires
        in_dispatch_order(first),
        in_dispatch_order(second),
        forall|registration: Registration<H>|
            first.contains(registration) <==> second.contains(registration),
    ensures
        first == second,
    decreases first.len(),
{
    if first.len() == 0 {
        if second.len() > 0 {
            assert(second.contains(second[0]));
            assert(first.contains(second[0]));
        }
        assert(first =~= second);
    } else {
        let top = first.last();
        assert(first[first.len() - 1] == top);
        assert(first.contains(top));
        assert(second.contains(top));
        let at = choose|at: int| 0 <= at < second.len() && second[at] == top;
        let other = second.last();
        assert(second[second.len() - 1] == other);
        assert(second.contains(other));
        assert(first.contains(other));
        let back = choose|back: int| 0 <= back < first.len() && first[back] == other;
        if at < second.len() - 1 {
            assert(precedes(second[at], second[second.len() - 1]));
            if back < first.len() - 1 {
                assert(precedes(first[back], first[first.len() - 1]));
            }
            assert(false);
        }
        assert(top == other);
        let head_first = first.drop_last();
        let head_second = second.drop_last();
        assert forall|registration: Registration<H>|
            head_first.contains(registration) <==> head_second.contains(registration) by {
            if head_first.contains(registration) {
                let i = choose|i: int| 0 <= i < head_first.len() && head_first[i] == registration;
                assert(first[i] == registration);
                assert(precedes(first[i], first[first.len() - 1]));
                assert(first.contains(registration));
                assert(second.contains(registration));
                let j = choose|j: int| 0 <= j < second.len() && second[j] == registration;
                assert(j < second.len() - 1);
                assert(head_second[j] == registration);
            }
            if head_second.contains(registration) {
                let j = choose|j: int| 0 <= j < head_second.len() && head_second[j]
                    == registration;
                assert(second[j] == registration);
                assert(precedes(second[j], second[second.len() - 1]));
                assert(second.contains(registration));
                assert(first.contains(registration));
                let i = choose|i: int| 0 <= i < first.len() && first[i] == registration;
                assert(i < first.len() - 1);
                assert(head_first[i] == registration);
            }
        }
        lemma_dispatch_order_is_unique(head_first, head_second);
        assert(first =~= head_first.push(top));
        assert(second =~= head_second.push(other));
    }
}

/// The handlers of one hook run in dispatch order: lower priorities first,
/// and among equal priorities the one registered earlier.
pub proof fn lemma_hook_runs_in_order<H>(table: Seq<Registration<H>>, name: Seq<char>)
    requires
        in_dispatch_order(table),
    ensures
        in_dispatch_order(under(table, name)),
{
    lemma_filter_keeps_order(table, |registration: Registration<H>| registration.name == name);
}

/// In a table in dispatch order, the place that `rank` gives a new
/// registration keeps the table in dispatch order, as long as the new
/// registration's token is above every token of the table.
pub proof fn lemma_insert_keeps_order<H>(table: Seq<Registration<H>>, added: Registration<H>)
    requires
        in_dispatch_order(table),
        tokens_below(table, added.token as int),
    ensures
        0 <= rank(table, added.priority) <= table.len(),
        in_dispatch_order(table.insert(rank(table, added.priority), added)),
        forall|i: int|
            0 <= i < rank(table, added.priority) ==> (#[trigger] table[i]).priority
                <= added.priority,
        forall|i: int|
            rank(table, added.priority) <= i < table.len() ==> (#[trigger] table[i]).priority
                > added.priority,
    decreases table.len(),
{
    let at = rank(table, added.priority);
    if table.len() > 0 {
        let shorter = table.drop_last();
        let end = table.len() - 1;
        lemma_insert_keeps_order(shorter, added);
        let below = rank(shorter, added.priority);
        assert(table.last() == table[end]);
        assert forall|i: int| 0 <= i < end implies shorter[i] == #[trigger] table[i] by {}
        if table[end].priority <= added.priority {
            // every earlier registration precedes the last one, so none has a
            // higher priority than `added`
            assert forall|i: int| 0 <= i < end implies (#[trigger] table[i]).priority
                <= added.priority by {
                assert(precedes(table[i], table[end]));
            }
            if below < end {
                assert(shorter[below] == table[below]);
            }
            assert(at == table.len());
        } else {
            assert(at == below);
            assert forall|i: int| at <= i < table.len() implies (#[trigger] table[i]).priority
                > added.priority by {
                if i < end {
                    assert(shorter[i] == table[i]);
                }
            }
        }
    }
    let longer = table.insert(at, added);
    assert forall|i: int, j: int| 0 <= i < j < longer.len() implies precedes(
        #[trigger] longer[i],
        #[trigger] longer[j],
    ) by {
        if j < at {
            assert(longer[i] == table[i] && longer[j] == table[j]);
        } else if j == at {
            assert(longer[i] == table[i]);
        } else if i < at {
            assert(longer[i] == table[i] && longer[j] == table[j - 1]);
        } else if i == at {
            assert(longer[j] == table[j - 1]);
        } else {
            assert(longer[i] == table[i - 1] && longer[j] == table[j - 1]);
        }
    }
}

/// A table holds, after a registration, what it held before and the new
/// registration, and nothing else.
pub proof fn lemma_registered_holds<H>(
    table: Seq<Registration<H>>,
    added: Registration<H>,
    other: Registration<H>,
)
    ensures
        registered(table, added).contains(other) <==> other == added || table.contains(other),
{
    lemma_rank_in_range(table, added.priority);
    let at = rank(table, added.priority);
    let longer = registered(table, added);
    if longer.contains(other) {
        let i = choose|i: int| 0 <= i < longer.len() && longer[i] == other;
        if i < at {
            assert(table[i] == other);
        } else if i > at {
            assert(table[i - 1] == other);
        }
    }
    if other == added {
        assert(longer[at] == other);
    }
    if table.contains(other) {
        let i = choose|i: int| 0 <= i < table.len() && table[i] == other;
        if i < at {
            assert(longer[i] == other);
        } else {
            assert(longer[i + 1] == other);
        }
    }
}

/// A registration goes into the chain of its hook at the place that its
/// priority gives it among the handlers of that hook, and leaves the chains
/// of the other hooks as they are.
pub proof fn lemma_registered_under<H>(
    table: Seq<Registration<H>>,
    added: Registration<H>,
    name: Seq<char>,
)
    requires
        in_dispatch_order(table),
        tokens_below(table, added.token as int),
    ensures
        under(registered(table, added), name) == if added.name == name {
            registered(under(table, name), added)
        } else {
            under(table, name)
        },
{
    lemma_insert_keeps_order(table, added);
    let at = rank(table, added.priority);
    let named = |registration: Registration<H>| registration.name == name;
    let front = table.take(at);
    let back = table.skip(at);
    assert(registered(table, added) =~= front.push(added) + back);
    assert(table =~= front + back);
    Seq::filter_distributes_over_add(front.push(added), back, named);
    Seq::filter_distributes_over_add(front, back, named);
    front.lemma_filter_push(added, named);
    if added.name == name {
        let chain_front = under(front, name);
        let chain_back = under(back, name);
        assert forall|i: int| 0 <= i < chain_front.len() implies (
        #[trigger] chain_front[i]).priority <= added.priority by {
            front.lemma_filter_contains_rev(named, chain_front[i]);
            let from = choose|from: int| 0 <= from < front.len() && front[from] == chain_front[i];
            assert(table[from] == front[from]);
        }
        assert forall|i: int| 0 <= i < chain_back.len() implies (
        #[trigger] chain_back[i]).priority > added.priority by {
            back.lemma_filter_contains_rev(named, chain_back[i]);
            let from = choose|from: int| 0 <= from < back.len() && back[from] == chain_back[i];
            assert(table[at + from] == back[from]);
        }
        lemma_rank_of_split(chain_front, chain_back, added.priority);
        assert(registered(under(table, name), added) =~= chain_front.push(added) + chain_back);
    }
}

/// Removing a registration right after it was made gives the table back as
/// it was: registering and removing leave nothing behind.
pub proof fn lemma_registered_then_removed<H>(table: Seq<Registration<H>>, added: Registration<H>)
    requires
        tokens_below(table, added.token as int),
    ensures
        without(registered(table, added), added.token) == table,
{
    lemma_rank_in_range(table, added.priority);
    let at = rank(table, added.priority);
    let keep = |registration: Registration<H>| registration.token != added.token;
    let front = table.take(at);
    let back = table.skip(at);
    assert(registered(table, added) =~= front.push(added) + back);
    assert(table =~= front + back);
    Seq::filter_distributes_over_add(front.push(added), back, keep);
    Seq::filter_distributes_over_add(front, back, keep);
    front.lemma_filter_push(added, keep);
    assert(!holds_token(table, added.token));
    lemma_without_absent(table, added.token);
}

/// Taking registrations out of a table keeps the rest in dispatch order.
pub proof fn lemma_filter_keeps_order<H>(
    table: Seq<Registration<H>>,
    keep: spec_fn(Registration<H>) -> bool,
)
    requires
        in_dispatch_order(table),
    ensures
        in_dispatch_order(table.filter(keep)),
        forall|i: int|
            0 <= i < table.filter(keep).len() ==> table.contains(#[trigger] table.filter(keep)[i]),
    decreases table.len(),
{
    reveal(Seq::filter);
    if table.len() > 0 {
        let shorter = table.drop_last();
        lemma_filter_keeps_order(shorter, keep);
        let kept = shorter.filter(keep);
        assert forall|i: int| 0 <= i < kept.len() implies table.contains(#[trigger] kept[i])
            && precedes(kept[i], table.last()) by {
            assert(shorter.contains(kept[i]));
            let at = choose|at: int| 0 <= at < shorter.len() && shorter[at] == kept[i];
            assert(table[at] == kept[i]);
            assert(precedes(table[at], table[table.len() - 1]));
        }
        if keep(table.last()) {
            let all = kept.push(table.last());
            assert(table[table.len() - 1] == table.last());
            assert forall|i: int, j: int| 0 <= i < j < all.len() implies precedes(
                #[trigger] all[i],
                #[trigger] all[j],
            ) by {
                if j < kept.len() {
                    assert(all[i] == kept[i] && all[j] == kept[j]);
                } else {
                    assert(all[i] == kept[i]);
                }
            }
            assert forall|i: int| 0 <= i < all.len() implies table.contains(#[trigger] all[i]) by {
                if i < kept.len() {
                    assert(all[i] == kept[i]);
                }
            }
        }
    }
}

/// Taking registrations out of a table keeps the tokens of the rest distinct
/// and below the same bound.
pub proof fn lemma_filter_keeps_tokens<H>(
    table: Seq<Registration<H>>,
    keep: spec_fn(Registration<H>) -> bool,
    bound: int,
)
    requires
        tokens_distinct(table),
        tokens_below(table, bound),
        in_dispatch_order(table),
    ensures
        tokens_distinct(table.filter(keep)),
        tokens_below(table.filter(keep), bound),
{
    let kept = table.filter(keep);
    lemma_filter_keeps_order(table, keep);
    assert forall|i: int| 0 <= i < kept.len() implies (#[trigger] kept[i]).token < bound by {
        assert(table.contains(kept[i]));
        let at = choose|at: int| 0 <= at < table.len() && table[at] == kept[i];
        assert(table[at].token < bound);
    }
    assert forall|i: int, j: int| 0 <= i < j < kept.len() implies (#[trigger] kept[i]).token != (
    #[trigger] kept[j]).token by {
        // two kept registrations with one token would be one registration of
        // the table, which cannot precede itself
        assert(precedes(kept[i], kept[j]));
        assert(table.contains(kept[i]));
        assert(table.contains(kept[j]));
        let a = choose|a: int| 0 <= a < table.len() && table[a] == kept[i];
        let b = choose|b: int| 0 <= b < table.len() && table[b] == kept[j];
        if a < b {
            assert(table[a].token != table[b].token);
        } else if b < a {
            assert(table[b].token != table[a].token);
        }
    }
}

/// Where none of `tokens` identifies a registration of `table`, taking them
/// out changes nothing.
pub proof fn lemma_revoked_absent<H>(table: Seq<Registration<H>>, tokens: Seq<HookToken>)
    requires
        forall|i: int|
            0 <= i < table.len() ==> !tokens.contains(
                HookToken { id: (#[trigger] table[i]).token },
            ),
    ensures
        revoked(table, tokens) == table,
    decreases table.len(),
{
    reveal(Seq::filter);
    if table.len() > 0 {
        let shorter = table.drop_last();
        assert forall|i: int| 0 <= i < shorter.len() implies !tokens.contains(
            HookToken { id: (#[trigger] shorter[i]).token },
        ) by {
            assert(shorter[i] == table[i]);
        }
        lemma_revoked_absent(shorter, tokens);
        assert(table.last() == table[table.len() - 1]);
        assert(shorter.push(table.last()) =~= table);
    } else {
        assert(revoked(table, tokens) =~= table);
    }
}

/// A registration whose token is among `tokens` leaves with them: what is
/// left of the table is what would be left had it never been registered.
pub proof fn lemma_revoked_registered<H>(
    table: Seq<Registration<H>>,
    added: Registration<H>,
    tokens: Seq<HookToken>,
)
    requires
        tokens.contains(HookToken { id: added.token }),
    ensures
        revoked(registered(table, added), tokens) == revoked(table, tokens),
{
    lemma_rank_in_range(table, added.priority);
    let at = rank(table, added.priority);
    let keep = |registration: Registration<H>|
        !tokens.contains(HookToken { id: registration.token });
    let front = table.take(at);
    let back = table.skip(at);
    assert(registered(table, added) =~= front.push(added) + back);
    assert(table =~= front + back);
    Seq::filter_distributes_over_add(front.push(added), back, keep);
    Seq::filter_distributes_over_add(front, back, keep);
    front.lemma_filter_push(added, keep);
}

/// Taking each handler by its view changes neither the place that a new
/// registration gets nor what else the table holds.
pub proof fn lemma_viewed_registered<H: View>(table: Seq<Registration<H>>, added: Registration<H>)
    ensures
        rank(viewed(table), added.priority) == rank(table, added.priority),
        viewed(registered(table, added)) == registered(viewed(table), viewed_one(added)),
    decreases table.len(),
{
    lemma_viewed_rank(table, added.priority);
    lemma_rank_in_range(table, added.priority);
    assert(viewed(registered(table, added)) =~= registered(viewed(table), viewed_one(added)));
}

/// Taking registrations out and taking each handler by its view can be done
/// in either order.
pub proof fn lemma_viewed_revoked<H: View>(table: Seq<Registration<H>>, tokens: Seq<HookToken>)
    ensures
        viewed(revoked(table, tokens)) == revoked(viewed(table), tokens),
    decreases table.len(),
{
    reveal(Seq::filter);
    if table.len() > 0 {
        let shorter = table.drop_last();
        lemma_viewed_revoked(shorter, tokens);
        assert(viewed(table).drop_last() =~= viewed(shorter));
        assert(viewed(table).last() == viewed_one(table.last()));
        if !tokens.contains(HookToken { id: table.last().token }) {
            assert(viewed(revoked(shorter, tokens).push(table.last())) =~= viewed(
                revoked(shorter, tokens),
            ).push(viewed_one(table.last())));
        }
    } else {
        assert(viewed(revoked(table, tokens)) =~= revoked(viewed(table), tokens));
    }
}

proof fn lemma_rank_in_range<H>(table: Seq<Registration<H>>, priority: i32)
    ensures
        0 <= rank(table, priority) <= table.len(),
    decreases table.len(),
{
    if table.len() > 0 {
        lemma_rank_in_range(table.drop_last(), priority);
    }
}

pub(crate) proof fn lemma_rank_at_boundary<H>(table: Seq<Registration<H>>, priority: i32, at: int)
    requires
        in_dispatch_order(table),
        0 <= at <= table.len(),
        forall|i: int| 0 <= i < at ==> (#[trigger] table[i]).priority <= priority,
        at < table.len() ==> table[at].priority > priority,
    ensures
        rank(table, priority) == at,
    decreases table.len(),
{
    if table.len() > 0 {
        let shorter = table.drop_last();
        if at == table.len() {
            lemma_rank_at_boundary(shorter, priority, at - 1);
        } else {
            assert(at == table.len() - 1 || precedes(table[at], table[table.len() - 1]));
            lemma_rank_at_boundary(shorter, priority, at);
        }
    }
}

proof fn lemma_rank_of_split<H>(
    front: Seq<Registration<H>>,
    back: Seq<Registration<H>>,
    priority: i32,
)
    requires
        forall|i: int| 0 <= i < front.len() ==> (#[trigger] front[i]).priority <= priority,
        forall|i: int| 0 <= i < back.len() ==> (#[trigger] back[i]).priority > priority,
    ensures
        rank(front + back, priority) == front.len(),
    decreases back.len(), front.len(),
{
    let whole = front + back;
    if back.len() > 0 {
        assert(whole.drop_last() =~= front + back.drop_last());
        assert(whole.last() == back[back.len() - 1]);
        lemma_rank_of_split(front, back.drop_last(), priority);
    } else if front.len() > 0 {
        assert(whole.drop_last() =~= front.drop_last() + back);
        assert(whole.last() == front[front.len() - 1]);
        lemma_rank_of_split(front.drop_last(), back, priority);
    } else {
        assert(whole =~= Seq::<Registration<H>>::empty());
    }
}

proof fn lemma_viewed_rank<H: View>(table: Seq<Registration<H>>, priority: i32)
    ensures
        rank(viewed(table), priority) == rank(table, priority),
    decreases table.len(),
{
    if table.len() > 0 {
        lemma_viewed_rank(table.drop_last(), priority);
        assert(viewed(table).drop_last() =~= viewed(table.drop_last()));
    }
}

pub(crate) proof fn lemma_insert_keeps_tokens<H>(
    table: Seq<Registration<H>>,
    added: Registration<H>,
    at: int,
)
    requires
        tokens_distinct(table),
        tokens_below(table, added.token as int),
        0 <= at <= table.len(),
    ensures
        tokens_distinct(table.insert(at, added)),
        tokens_below(table.insert(at, added), added.token + 1),
{
    let longer = table.insert(at, added);
    assert forall|i: int| 0 <= i < longer.len() implies (#[trigger] longer[i]).token < added.token
        + 1 by {
        if i < at {
            assert(longer[i] == table[i]);
        } else if i > at {
            assert(longer[i] == table[i - 1]);
        }
    }
    assert forall|i: int, j: int| 0 <= i < j < longer.len() implies (#[trigger] longer[i]).token
        != (#[trigger] longer[j]).token by {
        if j < at {
            assert(longer[i] == table[i] && longer[j] == table[j]);
        } else if j == at {
            assert(longer[i] == table[i]);
        } else if i < at {
            assert(longer[i] == table[i] && longer[j] == table[j - 1]);
        } else if i == at {
            assert(longer[j] == table[j - 1]);
        } else {
            assert(longer[i] == table[i - 1] && longer[j] == table[j - 1]);
        }
    }
}

pub(crate) proof fn lemma_under_push<H>(
    table: Seq<Registration<H>>,
    last: Registration<H>,
    name: Seq<char>,
)
    ensures
        under(table.push(last), name) == if last.name == name {
            under(table, name).push(last)
        } else {
            under(table, name)
        },
{
    reveal(Seq::filter);
    assert(table.push(last).drop_last() =~= table);
}

pub(crate) proof fn lemma_without_absent<H>(table: Seq<Registration<H>>, token: u64)
    requires
        !holds_token(table, token),
    ensures
        without(table, token) == table,
    decreases table.len(),
{
    reveal(Seq::filter);
    if table.len() > 0 {
        let shorter = table.drop_last();
        assert forall|i: int| 0 <= i < shorter.len() implies (#[trigger] shorter[i]).token
            != token by {
            assert(table[i].token != token);
        }
        lemma_without_absent(shorter, token);
        assert(table.last() == table[table.len() - 1]);
        assert(table.last().token != token);
        assert(shorter.push(table.last()) =~= table);
    } else {
        assert(without(table, token) =~= table);
    }
}

pub(crate) proof fn lemma_without_present<H>(table: Seq<Registration<H>>, token: u64, at: int)
    requires
        tokens_distinct(table),
        0 <= at < table.len(),
        table[at].token == token,
    ensures
        without(table, token) == table.remove(at),
    decreases table.len(),
{
    reveal(Seq::filter);
    let shorter = table.drop_last();
    if at == table.len() - 1 {
        assert forall|i: int| 0 <= i < shorter.len() implies (#[trigger] shorter[i]).token
            != token by {
            assert(table[i].token != table[at].token);
        }
        assert(!holds_token(shorter, token));
        lemma_without_absent(shorter, token);
        assert(table.remove(at) =~= shorter);
    } else {
        assert(tokens_distinct(shorter)) by {
            assert forall|i: int, j: int| 0 <= i < j < shorter.len() implies (
            #[trigger] shorter[i]).token != (#[trigger] shorter[j]).token by {
                assert(table[i].token != table[j].token);
            }
        }
        lemma_without_present(shorter, token, at);
        assert(table[at].token != table[table.len() - 1].token);
        assert(table.remove(at) =~= shorter.remove(at).push(table.last()));
    }
}

pub(crate) proof fn lemma_revoked_none<H>(table: Seq<Registration<H>>)
    ensures
        revoked(table, Seq::<HookToken>::empty()) == table,
    decreases table.len(),
{
    reveal(Seq::filter);
    if table.len() > 0 {
        lemma_revoked_none(table.drop_last());
        assert(table.drop_last().push(table.last()) =~= table);
    } else {
        assert(revoked(table, Seq::<HookToken>::empty()) =~= table);
    }
}

pub(crate) proof fn lemma_revoked_one_more<H>(
    table: Seq<Registration<H>>,
    tokens: Seq<HookToken>,
    token: HookToken,
)
    ensures
        without(revoked(table, tokens), token.id) == revoked(
            table,
            tokens.push(token),
        ),
    decreases table.len(),
{
    reveal(Seq::filter);
    if table.len() > 0 {
        let shorter = table.drop_last();
        let last = table.last();
        let mine = HookToken { id: last.token };
        lemma_revoked_one_more(shorter, tokens, token);
        assert(tokens.push(token).contains(mine) <==> tokens.contains(mine) || mine == token) by {
            if tokens.contains(mine) {
                let at = choose|at: int| 0 <= at < tokens.len() && tokens[at] == mine;
                assert(tokens.push(token)[at] == mine);
            }
            if mine == token {
                assert(tokens.push(token)[tokens.len() as int] == mine);
            }
        }
        if !tokens.contains(mine) {
            assert(revoked(table, tokens) == revoked(shorter, tokens).push(last));
            assert(revoked(shorter, tokens).push(last).drop_last() =~= revoked(shorter, tokens));
        }
    }
}

} // verus!
