//! Laws of the relay, stated and proved over the library's models.
//!
//! These proof functions pin down the guarantees the relay gives across
//! its functions: a broadcast never targets its sender; under the
//! registry's uniqueness invariant a broadcast names every other
//! registered connection exactly once; a line within the limit is framed
//! whole, a line over it ends only the offending connection's sequence.

use vstd::prelude::*;

use crate::dispatch::recipients;
use crate::framer::feed_lines;
use crate::framer::feed_state;
use crate::framer::strip_cr;
use crate::framer::FramerView;
use crate::framer::LINE_FEED;
use crate::registry::has_id;
use crate::registry::ids_of;
use crate::registry::unique_ids;
use crate::registry::ConnView;

verus! {

/// No two identifiers of the sequence are the same.
pub open spec fn distinct(ids: Seq<u16>) -> bool {
    forall|i: int, j: int| 0 <= i < j < ids.len() ==> ids[i] != ids[j]
}

/// A registry with unique entry identifiers yields a distinct identifier
/// sequence.
pub proof fn lemma_unique_ids_distinct(s: Seq<ConnView>)
    requires
        unique_ids(s),
    ensures
        distinct(ids_of(s)),
{
    assert forall|i: int, j: int|
        0 <= i < j < ids_of(s).len() implies ids_of(s)[i] != ids_of(s)[j] by {
        assert(s[i].id != s[j].id);
    }
}

/// A connection never receives a broadcast of its own message: the
/// recipients of a broadcast from `sender` never include `sender`.
pub proof fn lemma_broadcast_excludes_sender(ids: Seq<u16>, sender: u16)
    ensures
        forall|k: int|
            0 <= k < recipients(ids, sender).len() ==> #[trigger] recipients(ids, sender)[k]
                != sender,
    decreases ids.len(),
{
    if ids.len() > 0 {
        lemma_broadcast_excludes_sender(ids.drop_last(), sender);
        let prev = recipients(ids.drop_last(), sender);
        assert forall|k: int|
            0 <= k < recipients(ids, sender).len() implies #[trigger] recipients(ids, sender)[k]
            != sender by {
            if ids.last() != sender && k == recipients(ids, sender).len() - 1 {
                assert(recipients(ids, sender)[k] == ids.last());
            } else {
                assert(recipients(ids, sender)[k] == prev[k]);
            }
        }
    }
}

/// An identifier is a broadcast recipient exactly when it is registered
/// and is not the sender.
pub proof fn lemma_recipient_membership(ids: Seq<u16>, sender: u16, b: u16)
    ensures
        recipients(ids, sender).contains(b) <==> (ids.contains(b) && b != sender),
    decreases ids.len(),
{
    let r = recipients(ids, sender);
    if ids.len() == 0 {
        assert(!ids.contains(b));
        assert(!r.contains(b));
    } else {
        let d = ids.drop_last();
        let l = ids.last();
        lemma_recipient_membership(d, sender, b);
        assert(ids.contains(b) <==> (d.contains(b) || l == b)) by {
            if ids.contains(b) {
                let w = choose|w: int| 0 <= w < ids.len() && ids[w] == b;
                if w < ids.len() - 1 {
                    assert(d[w] == b);
                }
            }
            if d.contains(b) {
                let w = choose|w: int| 0 <= w < d.len() && d[w] == b;
                assert(ids[w] == b);
            }
            if l == b {
                assert(ids[ids.len() - 1] == b);
            }
        }
        if l != sender {
            let prev = recipients(d, sender);
            assert(r == prev.push(l));
            assert(r.contains(b) <==> (prev.contains(b) || l == b)) by {
                if r.contains(b) {
                    let w = choose|w: int| 0 <= w < r.len() && r[w] == b;
                    if w < r.len() - 1 {
                        assert(prev[w] == b);
                    }
                }
                if prev.contains(b) {
                    let w = choose|w: int| 0 <= w < prev.len() && prev[w] == b;
                    assert(r[w] == b);
                }
                if l == b {
                    assert(r[r.len() - 1] == b);
                }
            }
        }
    }
}

/// Each recipient of a broadcast from `sender` appears exactly once when
/// the registered identifiers are distinct: together with
/// `lemma_recipient_membership`, every other registered connection is
/// named exactly once and nobody else is named at all.
pub proof fn lemma_broadcast_exactly_once(ids: Seq<u16>, sender: u16)
    requires
        distinct(ids),
    ensures
        distinct(recipients(ids, sender)),
    decreases ids.len(),
{
    if ids.len() > 0 {
        let d = ids.drop_last();
        let l = ids.last();
        assert(distinct(d)) by {
            assert(forall|i: int| 0 <= i < d.len() ==> d[i] == ids[i]);
        }
        lemma_broadcast_exactly_once(d, sender);
        if l != sender {
            let prev = recipients(d, sender);
            assert(!prev.contains(l)) by {
                lemma_recipient_membership(d, sender, l);
                if d.contains(l) {
                    let w = choose|w: int| 0 <= w < d.len() && d[w] == l;
                    assert(ids[w] == ids[ids.len() - 1]);
                }
            }
            assert forall|i: int, j: int|
                0 <= i < j < prev.push(l).len() implies prev.push(l)[i] != prev.push(l)[j] by {
                if j < prev.len() {
                    assert(prev[i] != prev[j]);
                } else {
                    assert(prev.contains(prev[i])) by {
                        assert(prev[i] == prev[i]);
                    }
                }
            }
        }
    }
}

/// Over a registry with unique identifiers, a broadcast from `sender`
/// reaches `b` exactly when `b` is registered and is not the sender.
pub proof fn lemma_broadcast_covers_registry(s: Seq<ConnView>, sender: u16, b: u16)
    requires
        unique_ids(s),
    ensures
        recipients(ids_of(s), sender).contains(b) <==> (has_id(s, b) && b != sender),
{
    lemma_recipient_membership(ids_of(s), sender, b);
    assert(ids_of(s).contains(b) <==> has_id(s, b)) by {
        if ids_of(s).contains(b) {
            let w = choose|w: int| 0 <= w < ids_of(s).len() && ids_of(s)[w] == b;
            assert(s[w].id == b);
        }
        if has_id(s, b) {
            let w = choose|w: int| 0 <= w < s.len() && s[w].id == b;
            assert(ids_of(s)[w] == b);
        }
    }
}

/// Bytes that complete no line are buffered whole, in order, and framed
/// with nothing lost: what a chunk without a newline does to a framer
/// within its limit is exactly to append the chunk to the partial line.
pub proof fn lemma_feed_retains_partial(fv: FramerView, data: Seq<u8>)
    requires
        !fv.failed,
        forall|k: int| 0 <= k < data.len() ==> data[k] != LINE_FEED,
        fv.buf.len() + data.len() <= fv.max,
    ensures
        feed_state(fv, data) == (FramerView { buf: fv.buf + data, max: fv.max, failed: false }),
        feed_lines(fv, data) == Seq::<Seq<u8>>::empty(),
    decreases data.len(),
{
    if data.len() == 0 {
        assert(fv.buf + data =~= fv.buf);
        assert(feed_state(fv, data) =~= (FramerView {
            buf: fv.buf + data,
            max: fv.max,
            failed: false,
        }));
    } else {
        let d = data.drop_last();
        assert(forall|k: int| 0 <= k < d.len() ==> d[k] == data[k]);
        lemma_feed_retains_partial(fv, d);
        assert((fv.buf + d).push(data.last()) =~= fv.buf + data);
        assert(feed_state(fv, data) =~= (FramerView {
            buf: fv.buf + data,
            max: fv.max,
            failed: false,
        }));
    }
}

/// A line of at most the maximum length is accepted: fed to a fresh
/// framer followed by a newline, it comes out as exactly one line, with a
/// single trailing carriage return stripped, and the framer is left
/// empty and healthy.
pub proof fn lemma_line_within_limit_accepted(fv: FramerView, line: Seq<u8>)
    requires
        !fv.failed,
        fv.buf.len() == 0,
        forall|k: int| 0 <= k < line.len() ==> line[k] != LINE_FEED,
        line.len() <= fv.max,
    ensures
        feed_lines(fv, line.push(LINE_FEED)) == seq![strip_cr(line)],
        feed_state(fv, line.push(LINE_FEED)) == (FramerView {
            buf: Seq::empty(),
            max: fv.max,
            failed: false,
        }),
{
    let data = line.push(LINE_FEED);
    assert(data.drop_last() =~= line);
    lemma_feed_retains_partial(fv, line);
    assert(fv.buf + line =~= line);
    assert(feed_lines(fv, data) =~= seq![strip_cr(line)]);
    assert(feed_state(fv, data) =~= (FramerView {
        buf: Seq::empty(),
        max: fv.max,
        failed: false,
    }));
}

/// A line over the maximum length is a framing error: fed to a fresh
/// framer it yields no line at all and ends that framer's sequence. The
/// error is confined to this framer; the registry's removal contract says
/// every other connection keeps its place and state.
pub proof fn lemma_overlong_line_rejected(fv: FramerView, line: Seq<u8>)
    requires
        !fv.failed,
        fv.buf.len() == 0,
        forall|k: int| 0 <= k < line.len() ==> line[k] != LINE_FEED,
        line.len() > fv.max,
    ensures
        feed_state(fv, line).failed,
        feed_lines(fv, line) == Seq::<Seq<u8>>::empty(),
    decreases line.len(),
{
    let d = line.drop_last();
    assert(forall|k: int| 0 <= k < d.len() ==> d[k] == line[k]);
    if d.len() > fv.max {
        lemma_overlong_line_rejected(fv, d);
    } else {
        lemma_feed_retains_partial(fv, d);
        assert(fv.buf + d =~= d);
    }
}

} // verus!
