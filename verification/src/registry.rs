//! The registry of live connections.
//!
//! The registry maps a connection identifier to that connection's framing
//! state. It is owned by the event loop alone, which mutates it only
//! between waits, so it needs no lock. Identifiers are unique among live
//! entries; `insert` defensively drops any stale entry under the same
//! identifier before adding the new one, and `remove` is a no-op when the
//! identifier is absent.

use vstd::prelude::*;

use crate::framer::feed_lines;
use crate::framer::feed_state;
use crate::framer::views_of;
use crate::framer::Framer;
use crate::framer::FramerView;

verus! {

/// Ghost description of one live connection: its identifier and its
/// framing state.
#[verifier::ext_equal]
pub struct ConnView {
    pub id: u16,
    pub framer: FramerView,
}

/// The identifiers of the entries, in registry order.
pub open spec fn ids_of(s: Seq<ConnView>) -> Seq<u16> {
    s.map(|i: int, c: ConnView| c.id)
}

/// Whether some entry carries the identifier.
pub open spec fn has_id(s: Seq<ConnView>, id: u16) -> bool {
    exists|i: int| 0 <= i < s.len() && s[i].id == id
}

/// The index of the entry carrying the identifier.
pub open spec fn idx_of(s: Seq<ConnView>, id: u16) -> int {
    choose|i: int| 0 <= i < s.len() && s[i].id == id
}

/// No two entries carry the same identifier.
pub open spec fn unique_ids(s: Seq<ConnView>) -> bool {
    forall|i: int, j: int| 0 <= i < j < s.len() ==> s[i].id != s[j].id
}

/// The entries whose identifier differs from `id`, in order, unchanged.
pub open spec fn without_id(s: Seq<ConnView>, id: u16) -> Seq<ConnView> {
    s.filter(|c: ConnView| c.id != id)
}

/// The view of a fresh entry for `id` under line limit `max`.
pub open spec fn fresh_conn(id: u16, max: nat) -> ConnView {
    ConnView { id, framer: FramerView { buf: Seq::empty(), max, failed: false } }
}

/// Removing an absent identifier changes nothing.
pub proof fn lemma_without_absent(s: Seq<ConnView>, id: u16)
    requires
        !has_id(s, id),
    ensures
        without_id(s, id) == s,
    decreases s.len(),
{
    reveal(Seq::filter);
    if s.len() > 0 {
        assert(!has_id(s.drop_last(), id)) by {
            assert(forall|i: int|
                0 <= i < s.drop_last().len() ==> s.drop_last()[i] == s[i]);
        }
        lemma_without_absent(s.drop_last(), id);
        assert(s[s.len() - 1].id != id);
        assert(without_id(s, id) =~= s);
    }
}

/// One live connection: its identifier and framer.
struct Connection {
    id: u16,
    framer: Framer,
}

impl View for Connection {
    type V = ConnView;

    closed spec fn view(&self) -> ConnView {
        ConnView { id: self.id, framer: self.framer@ }
    }
}

/// What feeding a chunk of bytes to one connection produced: the complete
/// lines, and whether the chunk exceeded the line limit and so ended that
/// connection's line sequence.
pub struct FeedOutcome {
    pub lines: Vec<Vec<u8>>,
    pub overflow: bool,
}

/// The set of currently live, framed connections, keyed by identifier.
pub struct Registry {
    conns: Vec<Connection>,
    max_len: usize,
}

impl View for Registry {
    type V = Seq<ConnView>;

    closed spec fn view(&self) -> Seq<ConnView> {
        self.conns@.map(|i: int, c: Connection| c@)
    }
}

impl Registry {
    /// The maximum line length, in bytes, that each entry's framer enforces.
    pub closed spec fn line_limit(&self) -> nat {
        self.max_len as nat
    }

    /// An empty registry whose framers will enforce the given line limit.
    pub fn new(max_len: usize) -> (r: Registry)
        ensures
            r@ == Seq::<ConnView>::empty(),
            r.line_limit() == max_len as nat,
            unique_ids(r@),
    {
        let r = Registry { conns: Vec::new(), max_len };
        proof {
            assert(r@ =~= Seq::<ConnView>::empty());
        }
        r
    }

    /// Whether no connection is registered.
    pub fn is_empty(&self) -> (r: bool)
        ensures
            r == (self@.len() == 0),
    {
        self.conns.is_empty()
    }

    /// The number of registered connections.
    pub fn len(&self) -> (r: usize)
        ensures
            r == self@.len(),
    {
        self.conns.len()
    }

    /// Whether a connection with this identifier is registered.
    pub fn contains(&self, id: u16) -> (r: bool)
        ensures
            r == has_id(self@, id),
    {
        let mut i: usize = 0;
        while i < self.conns.len()
            invariant
                0 <= i <= self.conns@.len(),
                self@.len() == self.conns@.len(),
                forall|j: int| 0 <= j < i ==> self@[j].id != id,
            decreases self.conns@.len() - i,
        {
            if self.conns[i].id == id {
                proof {
                    assert(self@[i as int].id == id);
                }
                return true;
            }
            i = i + 1;
        }
        false
    }

    /// The registered identifiers, in registry order.
    pub fn ids_vec(&self) -> (r: Vec<u16>)
        ensures
            r@ == ids_of(self@),
    {
        let mut r: Vec<u16> = Vec::new();
        let mut i: usize = 0;
        while i < self.conns.len()
            invariant
                0 <= i <= self.conns@.len(),
                self@.len() == self.conns@.len(),
                r@ =~= ids_of(self@.take(i as int)),
            decreases self.conns@.len() - i,
        {
            r.push(self.conns[i].id);
            proof {
                assert(r@ =~= ids_of(self@.take(i + 1)));
            }
            i = i + 1;
        }
        proof {
            assert(self@.take(self@.len() as int) =~= self@);
        }
        r
    }

    /// Drops every entry carrying this identifier; all other entries keep
    /// their place and their framing state.
    fn purge(&mut self, id: u16)
        ensures
            final(self)@ == without_id(old(self)@, id),
            final(self).line_limit() == old(self).line_limit(),
    {
        broadcast use Seq::filter_distributes_over_add;

        let mut i: usize = 0;
        let ghost mut p: int = 0;
        proof {
            reveal(Seq::filter);
            assert(self@.take(0) =~= Seq::<ConnView>::empty());
            assert(without_id(Seq::<ConnView>::empty(), id) =~= Seq::<ConnView>::empty());
            assert(self@ =~= without_id(old(self)@.take(0), id) + old(self)@.skip(0));
        }
        while i < self.conns.len()
            invariant
                0 <= i,
                i <= p <= old(self)@.len(),
                self@.len() == self.conns@.len(),
                self@ == without_id(old(self)@.take(p), id) + old(self)@.skip(p),
                i as int == without_id(old(self)@.take(p), id).len(),
                self.max_len == old(self).max_len,
            decreases self.conns@.len() - i,
        {
            let ghost pre = self@;
            let ghost kept = without_id(old(self)@.take(p), id);
            proof {
                reveal(Seq::filter);
                assert(pre[i as int] == old(self)@[p]) by {
                    assert(pre[i as int] == old(self)@.skip(p)[i - kept.len()]);
                }
                assert(old(self)@.take(p + 1) =~= old(self)@.take(p) + seq![old(self)@[p]]);
                assert(seq![old(self)@[p]].filter(|c: ConnView| c.id != id) =~= (if old(
                    self,
                )@[p].id != id {
                    seq![old(self)@[p]]
                } else {
                    Seq::<ConnView>::empty()
                })) by {
                    reveal_with_fuel(Seq::filter, 2);
                    assert(seq![old(self)@[p]].drop_last() =~= Seq::<ConnView>::empty());
                }
            }
            if self.conns[i].id == id {
                self.conns.remove(i);
                proof {
                    assert(self@ =~= pre.remove(i as int));
                    p = p + 1;
                    assert(without_id(old(self)@.take(p), id) =~= kept);
                    assert(self@ =~= without_id(old(self)@.take(p), id) + old(self)@.skip(p)) by {
                        assert(old(self)@.skip(p - 1).skip(1) =~= old(self)@.skip(p));
                        assert(pre.remove(i as int) =~= kept + old(self)@.skip(p - 1).skip(1));
                    }
                }
            } else {
                proof {
                    p = p + 1;
                    assert(without_id(old(self)@.take(p), id) =~= kept.push(old(self)@[p - 1]));
                    assert(self@ =~= without_id(old(self)@.take(p), id) + old(self)@.skip(p)) by {
                        assert(old(self)@.skip(p - 1).skip(1) =~= old(self)@.skip(p));
                        assert(pre =~= kept.push(old(self)@[p - 1]) + old(self)@.skip(p - 1).skip(
                            1,
                        ));
                    }
                }
                i = i + 1;
            }
        }
        proof {
            assert(p == old(self)@.len()) by {
                assert(self@.len() == i as int + old(self)@.len() - p);
            }
            assert(old(self)@.take(old(self)@.len() as int) =~= old(self)@);
            assert(self@ =~= without_id(old(self)@, id));
        }
    }

    /// Registers a connection under `id` with a fresh framer, first
    /// dropping any stale entry under the same identifier; every other
    /// entry keeps its place and its framing state.
    pub fn insert(&mut self, id: u16)
        ensures
            final(self)@ == without_id(old(self)@, id).push(
                fresh_conn(id, old(self).line_limit()),
            ),
            final(self).line_limit() == old(self).line_limit(),
            unique_ids(old(self)@) ==> unique_ids(final(self)@),
    {
        self.purge(id);
        let ghost mid = self@;
        let framer = Framer::new(self.max_len);
        self.conns.push(Connection { id, framer });
        proof {
            assert(self@ =~= mid.push(fresh_conn(id, old(self).line_limit())));
            if unique_ids(old(self)@) {
                broadcast use vstd::seq_lib::group_filter_ensures;

                assert forall|i: int, j: int|
                    0 <= i < j < self@.len() implies self@[i].id != self@[j].id by {
                    if j < self@.len() - 1 {
                        lemma_filter_keeps_distinct(old(self)@, id, i, j);
                    } else {
                        assert(mid[i].id != id);
                    }
                }
            }
        }
    }

    /// Removes the entry under `id`, if any; idempotent, and every other
    /// entry keeps its place and its framing state. Removing an absent
    /// identifier is a no-op.
    pub fn remove(&mut self, id: u16)
        ensures
            final(self)@ == without_id(old(self)@, id),
            final(self).line_limit() == old(self).line_limit(),
            !has_id(old(self)@, id) ==> final(self)@ == old(self)@,
            unique_ids(old(self)@) ==> unique_ids(final(self)@),
    {
        self.purge(id);
        proof {
            if !has_id(old(self)@, id) {
                lemma_without_absent(old(self)@, id);
            }
            if unique_ids(old(self)@) {
                assert forall|i: int, j: int|
                    0 <= i < j < self@.len() implies self@[i].id != self@[j].id by {
                    lemma_filter_keeps_distinct(old(self)@, id, i, j);
                }
            }
        }
    }

    /// Feeds a chunk of bytes read from connection `id` into its framer,
    /// returning the complete lines and whether the line limit was
    /// exceeded. A chunk for an unregistered identifier is dropped. Every
    /// other entry keeps its place and its framing state.
    pub fn feed_bytes(&mut self, id: u16, data: &[u8]) -> (r: FeedOutcome)
        requires
            unique_ids(old(self)@),
        ensures
            unique_ids(final(self)@),
            final(self).line_limit() == old(self).line_limit(),
            !has_id(old(self)@, id) ==> final(self)@ == old(self)@ && r.lines@.len() == 0
                && !r.overflow,
            has_id(old(self)@, id) ==> {
                let k = idx_of(old(self)@, id);
                let fv = old(self)@[k].framer;
                &&& final(self)@ == old(self)@.update(
                    k,
                    ConnView { id, framer: feed_state(fv, data@) },
                )
                &&& views_of(r.lines@) == feed_lines(fv, data@)
                &&& r.overflow == feed_state(fv, data@).failed
            },
    {
        let mut i: usize = 0;
        while i < self.conns.len()
            invariant
                0 <= i <= self.conns@.len(),
                self@.len() == self.conns@.len(),
                *self == *old(self),
                unique_ids(self@),
                forall|j: int| 0 <= j < i ==> self@[j].id != id,
            decreases self.conns@.len() - i,
        {
            if self.conns[i].id == id {
                proof {
                    assert(self@[i as int].id == id);
                    assert(has_id(self@, id));
                    assert(idx_of(self@, id) == i as int) by {
                        let k = idx_of(self@, id);
                        assert(0 <= k < self@.len() && self@[k].id == id);
                        if k < i as int {
                            assert(self@[k].id != self@[i as int].id);
                        } else if k > i as int {
                            assert(self@[i as int].id != self@[k].id);
                        }
                    }
                }
                let ghost pre = self@;
                let mut conn = self.conns.remove(i);
                let lines = conn.framer.feed(data);
                let overflow = conn.framer.has_failed();
                self.conns.insert(i, conn);
                proof {
                    assert(self@ =~= pre.update(
                        i as int,
                        ConnView { id, framer: feed_state(pre[i as int].framer, data@) },
                    ));
                    assert forall|a: int, b: int|
                        0 <= a < b < self@.len() implies self@[a].id != self@[b].id by {
                        assert(self@[a].id == pre[a].id);
                        assert(self@[b].id == pre[b].id);
                    }
                }
                return FeedOutcome { lines, overflow };
            }
            i = i + 1;
        }
        FeedOutcome { lines: Vec::new(), overflow: false }
    }
}

/// Entries kept by a removal stay pairwise distinct in identifier.
proof fn lemma_filter_keeps_distinct(s: Seq<ConnView>, id: u16, i: int, j: int)
    requires
        unique_ids(s),
        0 <= i < j < without_id(s, id).len(),
    ensures
        without_id(s, id)[i].id != without_id(s, id)[j].id,
    decreases s.len(),
{
    reveal(Seq::filter);
    let out = without_id(s, id);
    if s.len() > 0 {
        let prev = without_id(s.drop_last(), id);
        assert(unique_ids(s.drop_last())) by {
            assert(forall|a: int|
                0 <= a < s.drop_last().len() ==> s.drop_last()[a] == s[a]);
        }
        if s.last().id != id {
            if j < out.len() - 1 {
                lemma_filter_keeps_distinct(s.drop_last(), id, i, j);
            } else {
                assert(out[j] == s.last());
                lemma_filter_element_is_member(s.drop_last(), id, i);
                let w = choose|w: int|
                    0 <= w < s.drop_last().len() && s.drop_last()[w] == prev[i];
                assert(s[w] == prev[i]);
                assert(s[w].id != s[s.len() - 1].id);
            }
        } else {
            lemma_filter_keeps_distinct(s.drop_last(), id, i, j);
        }
    }
}

/// Every entry kept by a removal is an entry of the sequence it came from.
proof fn lemma_filter_element_is_member(s: Seq<ConnView>, id: u16, i: int)
    requires
        0 <= i < without_id(s, id).len(),
    ensures
        exists|w: int| 0 <= w < s.len() && s[w] == without_id(s, id)[i],
    decreases s.len(),
{
    reveal(Seq::filter);
    let out = without_id(s, id);
    if s.len() > 0 {
        if s.last().id != id && i == out.len() - 1 {
            assert(s[s.len() - 1] == out[i]);
        } else {
            lemma_filter_element_is_member(s.drop_last(), id, i);
            let w = choose|w: int|
                0 <= w < s.drop_last().len() && s.drop_last()[w] == without_id(
                    s.drop_last(),
                    id,
                )[i];
            assert(s[w] == out[i]);
        }
    }
}

} // verus!
