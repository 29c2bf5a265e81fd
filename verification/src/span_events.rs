//! The span life-cycle points that the log reports, read from a comma
//! separated list such as `"new, close"`.
//!
//! Each entry, with surrounding white space removed, names a set of points:
//! `new`, `enter`, `exit`, `close`, `active` (enter and exit) or `full`
//! (all four). Any other entry names no point. The list means the union of
//! what its entries name.

use vstd::prelude::*;
use crate::text::{
    trim, trim_bounds, range_spells, chars_of, all_white_space, is_white_space,
    lemma_trim_ignores_surrounding_white_space,
};

verus! {

/// A set of span life-cycle points: creation, entry, exit and close.
#[derive(Clone, Copy, Debug, PartialEq, Eq, Structural)]
pub struct SpanEvents {
    /// An event when a span is created.
    pub new: bool,
    /// An event each time a span is entered.
    pub enter: bool,
    /// An event each time a span is exited.
    pub exit: bool,
    /// An event when a span is closed.
    pub close: bool,
}

/// No point at all.
pub open spec fn no_events() -> SpanEvents {
    SpanEvents { new: false, enter: false, exit: false, close: false }
}

/// Creation only.
pub open spec fn new_events() -> SpanEvents {
    SpanEvents { new: true, enter: false, exit: false, close: false }
}

/// Entry only.
pub open spec fn enter_events() -> SpanEvents {
    SpanEvents { new: false, enter: true, exit: false, close: false }
}

/// Exit only.
pub open spec fn exit_events() -> SpanEvents {
    SpanEvents { new: false, enter: false, exit: true, close: false }
}

/// Close only.
pub open spec fn close_events() -> SpanEvents {
    SpanEvents { new: false, enter: false, exit: false, close: true }
}

/// Entry and exit.
pub open spec fn active_events() -> SpanEvents {
    SpanEvents { new: false, enter: true, exit: true, close: false }
}

/// All four points.
pub open spec fn full_events() -> SpanEvents {
    SpanEvents { new: true, enter: true, exit: true, close: true }
}

impl SpanEvents {
    /// The points in `self` or in `other`.
    pub open spec fn union(self, other: SpanEvents) -> SpanEvents {
        SpanEvents {
            new: self.new || other.new,
            enter: self.enter || other.enter,
            exit: self.exit || other.exit,
            close: self.close || other.close,
        }
    }

    /// Every point of `other` is also a point of `self`.
    pub open spec fn includes(self, other: SpanEvents) -> bool {
        &&& other.new ==> self.new
        &&& other.enter ==> self.enter
        &&& other.exit ==> self.exit
        &&& other.close ==> self.close
    }

    /// The empty set of points.
    pub fn none() -> (r: SpanEvents)
        ensures
            r == no_events(),
    {
        SpanEvents { new: false, enter: false, exit: false, close: false }
    }

    /// The points in `self` or in `other`.
    pub fn union_with(self, other: SpanEvents) -> (r: SpanEvents)
        ensures
            r == self.union(other),
            r.new == (self.new || other.new),
            r.enter == (self.enter || other.enter),
            r.exit == (self.exit || other.exit),
            r.close == (self.close || other.close),
    {
        SpanEvents {
            new: self.new || other.new,
            enter: self.enter || other.enter,
            exit: self.exit || other.exit,
            close: self.close || other.close,
        }
    }
}

/// What one entry of the list names, once white space around it is removed.
pub open spec fn entry_events(entry: Seq<char>) -> SpanEvents {
    let name = trim(entry);
    if name == "new"@ {
        new_events()
    } else if name == "enter"@ {
        enter_events()
    } else if name == "exit"@ {
        exit_events()
    } else if name == "close"@ {
        close_events()
    } else if name == "active"@ {
        active_events()
    } else if name == "full"@ {
        full_events()
    } else {
        no_events()
    }
}

/// The pieces of `s` between commas, as `str::split(',')` gives them:
/// `k` commas make `k + 1` pieces, some of which may be empty.
pub open spec fn split_commas(s: Seq<char>) -> Seq<Seq<char>>
    decreases s.len(),
{
    if s.len() == 0 {
        seq![Seq::<char>::empty()]
    } else {
        let pieces = split_commas(s.drop_last());
        if s.last() == ',' {
            pieces.push(Seq::<char>::empty())
        } else {
            pieces.update(pieces.len() - 1, pieces.last().push(s.last()))
        }
    }
}

/// The union of what each of `entries` names.
pub open spec fn union_of_entries(entries: Seq<Seq<char>>) -> SpanEvents
    decreases entries.len(),
{
    if entries.len() == 0 {
        no_events()
    } else {
        union_of_entries(entries.drop_last()).union(entry_events(entries.last()))
    }
}

/// The points that the comma separated list `list` names.
pub open spec fn span_events_of(list: Seq<char>) -> SpanEvents {
    union_of_entries(split_commas(list))
}

/// The pieces joined back with commas between them.
pub open spec fn join_commas(pieces: Seq<Seq<char>>) -> Seq<char>
    decreases pieces.len(),
{
    if pieces.len() <= 1 {
        if pieces.len() == 0 {
            Seq::<char>::empty()
        } else {
            pieces[0]
        }
    } else {
        join_commas(pieces.drop_last()) + seq![','] + pieces.last()
    }
}

/// `split_commas` cuts at every comma and nowhere else: no piece holds a
/// comma, and joining the pieces with commas gives the text back.
pub proof fn lemma_split_commas_pieces(s: Seq<char>)
    ensures
        join_commas(split_commas(s)) == s,
        forall|k: int|
            0 <= k < split_commas(s).len() ==> !(#[trigger] split_commas(s)[k]).contains(','),
    decreases s.len(),
{
    lemma_split_commas_nonempty(s);
    if s.len() == 0 {
        assert(split_commas(s)[0] =~= Seq::<char>::empty());
    } else {
        let init = s.drop_last();
        let c = s.last();
        let p = split_commas(init);
        lemma_split_commas_pieces(init);
        lemma_split_commas_nonempty(init);
        assert(init.push(c) =~= s);
        let q = split_commas(s);
        if c == ',' {
            assert(q == p.push(Seq::<char>::empty()));
            assert(q.drop_last() =~= p);
            assert(join_commas(q) =~= init + seq![','] + Seq::<char>::empty());
            assert forall|k: int| 0 <= k < q.len() implies !(#[trigger] q[k]).contains(',') by {
                if k < p.len() {
                    assert(q[k] == p[k]);
                } else {
                    assert(q[k] =~= Seq::<char>::empty());
                }
            }
        } else {
            let n = p.len() - 1;
            let grown = p.last().push(c);
            assert(q == p.update(n, grown));
            assert forall|k: int| 0 <= k < q.len() implies !(#[trigger] q[k]).contains(',') by {
                if k < n {
                    assert(q[k] == p[k]);
                } else {
                    assert(q[k] == grown);
                    assert(!p[n].contains(','));
                    if grown.contains(',') {
                        let j = choose|j: int| 0 <= j < grown.len() && grown[j] == ',';
                        if j < p[n].len() {
                            assert(p[n][j] == ',');
                        }
                    }
                }
            }
            if p.len() == 1 {
                assert(join_commas(p) == p[0]);
                assert(join_commas(q) == q[0]);
                assert(q[0] =~= init.push(c));
            } else {
                assert(q.drop_last() =~= p.drop_last());
                assert(q.last() == grown);
                assert(join_commas(q) =~= (join_commas(p.drop_last()) + seq![','] + p.last()).push(
                    c,
                ));
            }
        }
    }
}

/// `split_commas` always gives at least one piece.
pub proof fn lemma_split_commas_nonempty(s: Seq<char>)
    ensures
        split_commas(s).len() >= 1,
    decreases s.len(),
{
    if s.len() > 0 {
        lemma_split_commas_nonempty(s.drop_last());
    }
}

/// Splitting at a comma between `a` and `b` gives the pieces of `a`, then
/// those of `b`.
pub proof fn lemma_split_commas_concat(a: Seq<char>, b: Seq<char>)
    ensures
        split_commas(a + seq![','] + b) == split_commas(a) + split_commas(b),
    decreases b.len(),
{
    let s = a + seq![','] + b;
    if b.len() == 0 {
        assert(s.drop_last() =~= a);
        assert(split_commas(a) + split_commas(b) =~= split_commas(a).push(Seq::<char>::empty()));
    } else {
        let init = b.drop_last();
        assert(s.drop_last() =~= a + seq![','] + init);
        assert(s.last() == b.last());
        lemma_split_commas_concat(a, init);
        lemma_split_commas_nonempty(init);
        lemma_split_commas_nonempty(a);
        let pa = split_commas(a);
        let pb = split_commas(init);
        if b.last() == ',' {
            assert((pa + pb).push(Seq::<char>::empty()) =~= pa + pb.push(Seq::<char>::empty()));
        } else {
            let x = pa + pb;
            assert(x.last() == pb.last());
            assert(x.update(x.len() - 1, x.last().push(b.last())) =~= pa + pb.update(
                pb.len() - 1,
                pb.last().push(b.last()),
            ));
        }
    }
}

/// The union over a concatenation of entry lists is the union of the two
/// unions.
pub proof fn lemma_union_of_entries_concat(x: Seq<Seq<char>>, y: Seq<Seq<char>>)
    ensures
        union_of_entries(x + y) == union_of_entries(x).union(union_of_entries(y)),
    decreases y.len(),
{
    if y.len() == 0 {
        assert(x + y =~= x);
    } else {
        assert((x + y).drop_last() =~= x + y.drop_last());
        assert((x + y).last() == y.last());
        lemma_union_of_entries_concat(x, y.drop_last());
    }
}

/// A list with no comma in it is a single entry.
pub proof fn lemma_single_entry(entry: Seq<char>)
    requires
        !entry.contains(','),
    ensures
        split_commas(entry) == seq![entry],
        span_events_of(entry) == entry_events(entry),
    decreases entry.len(),
{
    if entry.len() > 0 {
        let init = entry.drop_last();
        assert(!init.contains(',')) by {
            if init.contains(',') {
                let k = choose|k: int| 0 <= k < init.len() && init[k] == ',';
                assert(entry[k] == ',');
            }
        }
        lemma_single_entry(init);
        assert(entry.last() != ',') by {
            assert(entry[entry.len() - 1] == entry.last());
        }
        assert(init.push(entry.last()) =~= entry);
        assert(seq![init].update(0, init.push(entry.last())) =~= seq![entry]);
    } else {
        assert(entry =~= Seq::<char>::empty());
    }
    let single = seq![entry];
    assert(single.drop_last() =~= Seq::<Seq<char>>::empty());
    assert(single.last() == entry);
    assert(union_of_entries(single) == union_of_entries(single.drop_last()).union(
        entry_events(single.last()),
    ));
}

/// Joining two lists with a comma names the union of what each names.
pub proof fn lemma_span_events_concat(a: Seq<char>, b: Seq<char>)
    ensures
        span_events_of(a + seq![','] + b) == span_events_of(a).union(span_events_of(b)),
{
    lemma_split_commas_concat(a, b);
    lemma_union_of_entries_concat(split_commas(a), split_commas(b));
}

/// The order of two lists joined by a comma does not matter.
pub proof fn lemma_span_events_order_irrelevant(a: Seq<char>, b: Seq<char>)
    ensures
        span_events_of(a + seq![','] + b) == span_events_of(b + seq![','] + a),
{
    lemma_span_events_concat(a, b);
    lemma_span_events_concat(b, a);
}

/// Repeating a list adds nothing to what it names.
pub proof fn lemma_span_events_repetition_irrelevant(a: Seq<char>)
    ensures
        span_events_of(a + seq![','] + a) == span_events_of(a),
{
    lemma_span_events_concat(a, a);
}

/// An entry that names no point changes nothing in the list it is added to.
pub proof fn lemma_unknown_entry_ignored(list: Seq<char>, entry: Seq<char>)
    requires
        !entry.contains(','),
        entry_events(entry) == no_events(),
    ensures
        span_events_of(list + seq![','] + entry) == span_events_of(list),
{
    lemma_span_events_concat(list, entry);
    lemma_single_entry(entry);
}

/// White space around an entry does not change what the entry names, nor
/// what a list made of that entry alone names.
pub proof fn lemma_entry_ignores_surrounding_white_space(
    w1: Seq<char>,
    entry: Seq<char>,
    w2: Seq<char>,
)
    requires
        all_white_space(w1),
        all_white_space(w2),
        !entry.contains(','),
    ensures
        entry_events(w1 + entry + w2) == entry_events(entry),
        span_events_of(w1 + entry + w2) == span_events_of(entry),
{
    lemma_trim_ignores_surrounding_white_space(w1, entry, w2);
    let padded = w1 + entry + w2;
    assert(!padded.contains(',')) by {
        if padded.contains(',') {
            let k = choose|k: int| 0 <= k < padded.len() && padded[k] == ',';
            if k < w1.len() {
                assert(is_white_space(w1[k]));
            } else if k < w1.len() + entry.len() {
                assert(entry[k - w1.len()] == ',');
            } else {
                assert(is_white_space(w2[k - w1.len() - entry.len()]));
            }
        }
    }
    lemma_single_entry(padded);
    lemma_single_entry(entry);
}

/// The union holds a point exactly when one of the two sets holds it: it
/// holds both sets, and any set that holds both holds it.
pub proof fn lemma_union_points(a: SpanEvents, b: SpanEvents, c: SpanEvents)
    ensures
        a.union(b).new <==> (a.new || b.new),
        a.union(b).enter <==> (a.enter || b.enter),
        a.union(b).exit <==> (a.exit || b.exit),
        a.union(b).close <==> (a.close || b.close),
        a.union(b).includes(a),
        a.union(b).includes(b),
        c.includes(a) && c.includes(b) ==> c.includes(a.union(b)),
{
}

/// Which points one entry names: `new` and `full` name creation; `enter`,
/// `active` and `full` name entry; `exit`, `active` and `full` name exit;
/// `close` and `full` name close. White space around the name is ignored
/// and no other entry names any point.
pub proof fn lemma_entry_points(entry: Seq<char>)
    ensures
        entry_events(entry).new <==> (trim(entry) == "new"@ || trim(entry) == "full"@),
        entry_events(entry).enter <==> (trim(entry) == "enter"@ || trim(entry) == "active"@
            || trim(entry) == "full"@),
        entry_events(entry).exit <==> (trim(entry) == "exit"@ || trim(entry) == "active"@
            || trim(entry) == "full"@),
        entry_events(entry).close <==> (trim(entry) == "close"@ || trim(entry) == "full"@),
{
    reveal_strlit("new");
    reveal_strlit("enter");
    reveal_strlit("exit");
    reveal_strlit("close");
    reveal_strlit("active");
    reveal_strlit("full");
    assert("new"@.len() == 3 && "new"@[0] == 'n');
    assert("enter"@.len() == 5 && "enter"@[0] == 'e');
    assert("exit"@.len() == 4 && "exit"@[0] == 'e');
    assert("close"@.len() == 5 && "close"@[0] == 'c');
    assert("active"@.len() == 6 && "active"@[0] == 'a');
    assert("full"@.len() == 4 && "full"@[0] == 'f');
}

/// A list of entries names a point exactly when one of its entries does.
pub proof fn lemma_union_of_entries_points(entries: Seq<Seq<char>>)
    ensures
        union_of_entries(entries).new <==> exists|k: int|
            0 <= k < entries.len() && #[trigger] entry_events(entries[k]).new,
        union_of_entries(entries).enter <==> exists|k: int|
            0 <= k < entries.len() && #[trigger] entry_events(entries[k]).enter,
        union_of_entries(entries).exit <==> exists|k: int|
            0 <= k < entries.len() && #[trigger] entry_events(entries[k]).exit,
        union_of_entries(entries).close <==> exists|k: int|
            0 <= k < entries.len() && #[trigger] entry_events(entries[k]).close,
    decreases entries.len(),
{
    if entries.len() > 0 {
        let init = entries.drop_last();
        let n = entries.len() - 1;
        lemma_union_of_entries_points(init);
        assert forall|k: int| 0 <= k < init.len() implies init[k] == entries[k] by {}
        assert(entries[n] == entries.last());
        let last = entry_events(entries[n]);
        if exists|k: int| 0 <= k < entries.len() && #[trigger] entry_events(entries[k]).new {
            let k = choose|k: int| 0 <= k < entries.len() && #[trigger] entry_events(entries[k]).new;
            if k < n {
                assert(entry_events(init[k]).new);
            }
        }
        if exists|k: int| 0 <= k < entries.len() && #[trigger] entry_events(entries[k]).enter {
            let k = choose|k: int|
                0 <= k < entries.len() && #[trigger] entry_events(entries[k]).enter;
            if k < n {
                assert(entry_events(init[k]).enter);
            }
        }
        if exists|k: int| 0 <= k < entries.len() && #[trigger] entry_events(entries[k]).exit {
            let k = choose|k: int| 0 <= k < entries.len() && #[trigger] entry_events(entries[k]).exit;
            if k < n {
                assert(entry_events(init[k]).exit);
            }
        }
        if exists|k: int| 0 <= k < entries.len() && #[trigger] entry_events(entries[k]).close {
            let k = choose|k: int|
                0 <= k < entries.len() && #[trigger] entry_events(entries[k]).close;
            if k < n {
                assert(entry_events(init[k]).close);
            }
        }
        if union_of_entries(init).new {
            let k = choose|k: int| 0 <= k < init.len() && #[trigger] entry_events(init[k]).new;
            assert(entry_events(entries[k]).new);
        }
        if union_of_entries(init).enter {
            let k = choose|k: int| 0 <= k < init.len() && #[trigger] entry_events(init[k]).enter;
            assert(entry_events(entries[k]).enter);
        }
        if union_of_entries(init).exit {
            let k = choose|k: int| 0 <= k < init.len() && #[trigger] entry_events(init[k]).exit;
            assert(entry_events(entries[k]).exit);
        }
        if union_of_entries(init).close {
            let k = choose|k: int| 0 <= k < init.len() && #[trigger] entry_events(init[k]).close;
            assert(entry_events(entries[k]).close);
        }
        if last.new {
            assert(entry_events(entries[n]).new);
        }
        if last.enter {
            assert(entry_events(entries[n]).enter);
        }
        if last.exit {
            assert(entry_events(entries[n]).exit);
        }
        if last.close {
            assert(entry_events(entries[n]).close);
        }
    }
}

/// A comma separated list names a point exactly when one of its pieces,
/// once trimmed, is a name of that point; in particular a list names no
/// point that none of its entries names.
pub proof fn lemma_span_events_points(list: Seq<char>)
    ensures
        span_events_of(list).new <==> exists|k: int|
            0 <= k < split_commas(list).len() && {
                let name = trim(#[trigger] split_commas(list)[k]);
                name == "new"@ || name == "full"@
            },
        span_events_of(list).enter <==> exists|k: int|
            0 <= k < split_commas(list).len() && {
                let name = trim(#[trigger] split_commas(list)[k]);
                name == "enter"@ || name == "active"@ || name == "full"@
            },
        span_events_of(list).exit <==> exists|k: int|
            0 <= k < split_commas(list).len() && {
                let name = trim(#[trigger] split_commas(list)[k]);
                name == "exit"@ || name == "active"@ || name == "full"@
            },
        span_events_of(list).close <==> exists|k: int|
            0 <= k < split_commas(list).len() && {
                let name = trim(#[trigger] split_commas(list)[k]);
                name == "close"@ || name == "full"@
            },
{
    let pieces = split_commas(list);
    lemma_union_of_entries_points(pieces);
    assert forall|k: int| 0 <= k < pieces.len() implies {
        let e = entry_events(#[trigger] pieces[k]);
        let name = trim(pieces[k]);
        &&& e.new <==> (name == "new"@ || name == "full"@)
        &&& e.enter <==> (name == "enter"@ || name == "active"@ || name == "full"@)
        &&& e.exit <==> (name == "exit"@ || name == "active"@ || name == "full"@)
        &&& e.close <==> (name == "close"@ || name == "full"@)
    } by {
        lemma_entry_points(pieces[k]);
    }
}

/// What the entry `s[lo..hi]` names.
fn entry_events_in(s: &Vec<char>, lo: usize, hi: usize) -> (r: SpanEvents)
    requires
        lo <= hi <= s@.len(),
    ensures
        r == entry_events(s@.subrange(lo as int, hi as int)),
{
    let (a, b) = trim_bounds(s, lo, hi);
    if range_spells(s, a, b, "new") {
        SpanEvents { new: true, enter: false, exit: false, close: false }
    } else if range_spells(s, a, b, "enter") {
        SpanEvents { new: false, enter: true, exit: false, close: false }
    } else if range_spells(s, a, b, "exit") {
        SpanEvents { new: false, enter: false, exit: true, close: false }
    } else if range_spells(s, a, b, "close") {
        SpanEvents { new: false, enter: false, exit: false, close: true }
    } else if range_spells(s, a, b, "active") {
        SpanEvents { new: false, enter: true, exit: true, close: false }
    } else if range_spells(s, a, b, "full") {
        SpanEvents { new: true, enter: true, exit: true, close: true }
    } else {
        SpanEvents::none()
    }
}

/// The points that the comma separated list `list` names: the union, over
/// the pieces between commas, of what each piece names once trimmed.
pub fn parse_span_events(list: &str) -> (r: SpanEvents)
    ensures
        r == span_events_of(list@),
        r.new <==> exists|k: int|
            0 <= k < split_commas(list@).len() && {
                let name = trim(#[trigger] split_commas(list@)[k]);
                name == "new"@ || name == "full"@
            },
        r.enter <==> exists|k: int|
            0 <= k < split_commas(list@).len() && {
                let name = trim(#[trigger] split_commas(list@)[k]);
                name == "enter"@ || name == "active"@ || name == "full"@
            },
        r.exit <==> exists|k: int|
            0 <= k < split_commas(list@).len() && {
                let name = trim(#[trigger] split_commas(list@)[k]);
                name == "exit"@ || name == "active"@ || name == "full"@
            },
        r.close <==> exists|k: int|
            0 <= k < split_commas(list@).len() && {
                let name = trim(#[trigger] split_commas(list@)[k]);
                name == "close"@ || name == "full"@
            },
{
    proof {
        lemma_span_events_points(list@);
    }
    let s = chars_of(list);
    let n = s.len();
    let mut acc = SpanEvents::none();
    let mut start: usize = 0;
    let mut i: usize = 0;
    proof {
        assert(s@.take(0) =~= Seq::<char>::empty());
        assert(s@.subrange(0, 0) =~= Seq::<char>::empty());
        assert(split_commas(s@.take(0)).drop_last() =~= Seq::<Seq<char>>::empty());
    }
    while i < n
        invariant
            n == s@.len(),
            start <= i <= n,
            split_commas(s@.take(i as int)).len() >= 1,
            split_commas(s@.take(i as int)).last() == s@.subrange(start as int, i as int),
            union_of_entries(split_commas(s@.take(i as int)).drop_last()) == acc,
        decreases n - i,
    {
        let ghost prev = split_commas(s@.take(i as int));
        proof {
            assert(s@.take(i + 1).drop_last() =~= s@.take(i as int));
            assert(s@.take(i + 1).last() == s@[i as int]);
            assert(union_of_entries(prev) == union_of_entries(prev.drop_last()).union(
                entry_events(prev.last()),
            ));
        }
        if s[i] == ',' {
            let e = entry_events_in(&s, start, i);
            acc = acc.union_with(e);
            start = i + 1;
            proof {
                let next = split_commas(s@.take(i + 1));
                assert(next == prev.push(Seq::<char>::empty()));
                assert(next.drop_last() =~= prev);
                assert(s@.subrange(i + 1, i + 1) =~= Seq::<char>::empty());
            }
        } else {
            proof {
                let next = split_commas(s@.take(i + 1));
                assert(next == prev.update(prev.len() - 1, prev.last().push(s@[i as int])));
                assert(next.drop_last() =~= prev.drop_last());
                assert(next.last() =~= s@.subrange(start as int, i + 1));
            }
        }
        i = i + 1;
    }
    let e = entry_events_in(&s, start, n);
    proof {
        let all = split_commas(s@.take(n as int));
        assert(s@.take(n as int) =~= s@);
        assert(union_of_entries(all) == union_of_entries(all.drop_last()).union(
            entry_events(all.last()),
        ));
    }
    acc.union_with(e)
}

} // verus!
