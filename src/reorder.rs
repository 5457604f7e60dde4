//! The reliable-delivery reorder buffer: payloads that arrived ahead of the
//! expected sequence id, kept in order of their distance from it.
use vstd::prelude::*;

verus! {

/// A buffered reliable payload.
pub struct ReliableEntry {
    pub sequence_id: u16,
    pub payload: Vec<u8>,
}

impl View for ReliableEntry {
    type V = (u16, Seq<u8>);

    open spec fn view(&self) -> (u16, Seq<u8>) {
        (self.sequence_id, self.payload@)
    }
}

/// The views of the entries of a buffer.
pub open spec fn entries(q: Seq<ReliableEntry>) -> Seq<(u16, Seq<u8>)> {
    q.map_values(|e: ReliableEntry| e@)
}

/// The payloads of a list of buffers.
pub open spec fn payloads(v: Seq<Vec<u8>>) -> Seq<Seq<u8>> {
    v.map_values(|p: Vec<u8>| p@)
}

/// How far sequence id `s` lies ahead of counter `c`, modulo 65536.
pub open spec fn dist(s: u16, c: u16) -> int {
    (s as int - c as int) % 65536
}

/// The counter after `c`, wrapping at 65536.
pub open spec fn next_seq(c: u16) -> u16 {
    ((c as int + 1) % 65536) as u16
}

/// An id is in the receive window when it lies less than half the id space
/// ahead of the counter; ids behind it were delivered already.
pub open spec fn in_window(s: u16, c: u16) -> bool {
    dist(s, c) < 32768
}

/// Whether some buffered entry has sequence id `s`.
pub open spec fn holds_id(q: Seq<(u16, Seq<u8>)>, s: u16) -> bool {
    exists|i: int| 0 <= i < q.len() && (#[trigger] q[i]).0 == s
}

/// The buffer is ordered strictly by distance from the counter, and every
/// entry lies in the window.
pub open spec fn queue_wf(q: Seq<(u16, Seq<u8>)>, c: u16) -> bool {
    &&& forall|i: int, j: int| 0 <= i < j < q.len() ==> dist(q[i].0, c) < dist(q[j].0, c)
    &&& forall|i: int| 0 <= i < q.len() ==> in_window(#[trigger] q[i].0, c)
}

/// Nothing at the front of the buffer is due: the run was handed on.
pub open spec fn settled(q: Seq<(u16, Seq<u8>)>, c: u16) -> bool {
    q.len() == 0 || q[0].0 != c
}

/// `q` with `e` placed before the first entry that lies no nearer the counter.
pub open spec fn sorted_insert(q: Seq<(u16, Seq<u8>)>, c: u16, e: (u16, Seq<u8>)) -> Seq<(u16, Seq<u8>)>
    decreases q.len(),
{
    if q.len() == 0 {
        seq![e]
    } else if dist(e.0, c) <= dist(q[0].0, c) {
        seq![e] + q
    } else {
        seq![q[0]] + sorted_insert(q.drop_first(), c, e)
    }
}

/// What the buffer hands on from counter `c`: the payloads of the run of
/// consecutive ids at its front, the buffer that remains, and the counter after.
pub open spec fn deliver(q: Seq<(u16, Seq<u8>)>, c: u16) -> (Seq<Seq<u8>>, Seq<(u16, Seq<u8>)>, u16)
    decreases q.len(),
{
    if q.len() > 0 && q[0].0 == c {
        let r = deliver(q.drop_first(), next_seq(c));
        (seq![q[0].1] + r.0, r.1, r.2)
    } else {
        (Seq::empty(), q, c)
    }
}

proof fn lemma_sorted_insert_at(q: Seq<(u16, Seq<u8>)>, c: u16, e: (u16, Seq<u8>), i: int)
    requires
        0 <= i <= q.len(),
        forall|j: int| 0 <= j < i ==> dist(#[trigger] q[j].0, c) < dist(e.0, c),
        i < q.len() ==> dist(e.0, c) <= dist(q[i].0, c),
    ensures
        sorted_insert(q, c, e) == q.insert(i, e),
    decreases q.len(),
{
    if q.len() == 0 {
        assert(q.insert(i, e) =~= seq![e]);
    } else if i == 0 {
        assert(q.insert(i, e) =~= seq![e] + q);
    } else {
        assert(dist(q[0].0, c) < dist(e.0, c));
        let t = q.drop_first();
        assert forall|j: int| 0 <= j < i - 1 implies dist(#[trigger] t[j].0, c) < dist(e.0, c) by {
            assert(t[j] == q[j + 1]);
        }
        lemma_sorted_insert_at(t, c, e, i - 1);
        assert(q.insert(i, e) =~= seq![q[0]] + t.insert(i - 1, e));
    }
}

proof fn lemma_dist_step(s: u16, c: u16)
    requires
        dist(s, c) >= 1,
    ensures
        dist(s, next_seq(c)) == dist(s, c) - 1,
{
}

/// Buffers a reliable payload. An id already buffered, or one behind the
/// window, is a duplicate: the buffer stays as it is and the result is false.
pub fn insert_reliable(q: &mut Vec<ReliableEntry>, c: u16, e: ReliableEntry) -> (r: bool)
    requires
        queue_wf(entries(old(q)@), c),
    ensures
        r == (in_window(e.sequence_id, c) && !holds_id(entries(old(q)@), e.sequence_id)),
        r ==> entries(final(q)@) == sorted_insert(entries(old(q)@), c, e@),
        !r ==> final(q)@ == old(q)@,
        queue_wf(entries(final(q)@), c),
{
    let ghost old_q = entries(q@);
    let d: u16 = e.sequence_id.wrapping_sub(c);
    assert(d as int == dist(e.sequence_id, c));
    if d >= 32768 {
        return false;
    }
    let mut k: usize = 0;
    while k < q.len()
        invariant
            k <= q@.len(),
            q@ == old(q)@,
            old_q == entries(q@),
            queue_wf(old_q, c),
            d as int == dist(e.sequence_id, c),
            forall|j: int| 0 <= j < k ==> (#[trigger] old_q[j]).0 != e.sequence_id,
        decreases q@.len() - k,
    {
        if q[k].sequence_id == e.sequence_id {
            assert(old_q[k as int].0 == e.sequence_id);
            return false;
        }
        assert(old_q[k as int].0 == q@[k as int].sequence_id);
        k = k + 1;
    }
    assert(!holds_id(old_q, e.sequence_id));
    let mut i: usize = 0;
    let mut found: bool = false;
    while !found && i < q.len()
        invariant
            i <= q@.len(),
            q@ == old(q)@,
            old_q == entries(q@),
            queue_wf(old_q, c),
            d as int == dist(e.sequence_id, c),
            forall|j: int| 0 <= j < i ==> dist(#[trigger] old_q[j].0, c) < dist(e.sequence_id, c),
            found ==> i < q@.len() && dist(e.sequence_id, c) <= dist(old_q[i as int].0, c),
        decreases q@.len() - i + (if found { 0int } else { 1int }),
    {
        let di: u16 = q[i].sequence_id.wrapping_sub(c);
        assert(old_q[i as int].0 == q@[i as int].sequence_id);
        assert(di as int == dist(old_q[i as int].0, c));
        if di < d {
            i = i + 1;
        } else {
            found = true;
        }
    }
    proof {
        if i < q@.len() {
            assert(old_q[i as int].0 != e.sequence_id);
        }
        lemma_sorted_insert_at(old_q, c, e@, i as int);
    }
    let ghost ev = e@;
    q.insert(i, e);
    assert(entries(q@) =~= old_q.insert(i as int, ev));
    let ghost nq = entries(q@);
    assert forall|a: int, b: int| 0 <= a < b < nq.len() implies dist(nq[a].0, c) < dist(nq[b].0, c) by {
        if b < i {
        } else if b == i {
        } else if a < i {
        } else if a == i {
            assert(nq[b] == old_q[b - 1]);
            if b - 1 > i {
                assert(dist(old_q[i as int].0, c) < dist(old_q[b - 1].0, c));
            }
            assert(old_q[b - 1].0 != ev.0);
        } else {
            assert(nq[a] == old_q[a - 1]);
            assert(nq[b] == old_q[b - 1]);
        }
    }
    assert forall|a: int| 0 <= a < nq.len() implies in_window(#[trigger] nq[a].0, c) by {
        if a > i {
            assert(nq[a] == old_q[a - 1]);
        }
    }
    true
}

/// Hands on the run of consecutive ids at the front of the buffer, advancing
/// the counter past each.
pub fn deliver_in_order(q: &mut Vec<ReliableEntry>, c: &mut u16) -> (out: Vec<Vec<u8>>)
    requires
        queue_wf(entries(old(q)@), *old(c)),
    ensures
        payloads(out@) == deliver(entries(old(q)@), *old(c)).0,
        entries(final(q)@) == deliver(entries(old(q)@), *old(c)).1,
        *final(c) == deliver(entries(old(q)@), *old(c)).2,
        queue_wf(entries(final(q)@), *final(c)),
        settled(entries(final(q)@), *final(c)),
{
    let ghost q0 = entries(q@);
    let ghost c0 = *c;
    let mut out: Vec<Vec<u8>> = Vec::new();
    while q.len() > 0 && q[0].sequence_id == *c
        invariant
            deliver(q0, c0) == (
                payloads(out@) + deliver(entries(q@), *c).0,
                deliver(entries(q@), *c).1,
                deliver(entries(q@), *c).2,
            ),
            queue_wf(entries(q@), *c),
        decreases q@.len(),
    {
        let ghost before = entries(q@);
        let ghost cb = *c;
        let ghost outb = payloads(out@);
        let e = q.remove(0);
        out.push(e.payload);
        *c = c.wrapping_add(1);
        proof {
            assert(entries(q@) =~= before.drop_first());
            assert(payloads(out@) =~= outb.push(before[0].1));
            assert(*c == next_seq(cb));
            assert(outb + deliver(before, cb).0 =~= payloads(out@) + deliver(entries(q@), *c).0);
            let nq = entries(q@);
            assert forall|a: int, b: int| 0 <= a < b < nq.len() implies dist(nq[a].0, *c) < dist(nq[b].0, *c) by {
                assert(nq[a] == before[a + 1]);
                assert(nq[b] == before[b + 1]);
                assert(dist(before[0].0, cb) < dist(before[a + 1].0, cb));
                lemma_dist_step(nq[a].0, cb);
                lemma_dist_step(nq[b].0, cb);
            }
            assert forall|a: int| 0 <= a < nq.len() implies in_window(#[trigger] nq[a].0, *c) by {
                assert(nq[a] == before[a + 1]);
                assert(dist(before[0].0, cb) < dist(before[a + 1].0, cb));
                assert(in_window(before[a + 1].0, cb));
                lemma_dist_step(nq[a].0, cb);
            }
        }
    }
    assert(payloads(out@) + Seq::<Seq<u8>>::empty() =~= payloads(out@));
    assert(q@.len() > 0 ==> entries(q@)[0].0 == q@[0].sequence_id);
    out
}

/// A payload that repeats an id, offered to a settled buffer, leaves the
/// buffer and the counter as they were and hands nothing on.
pub proof fn lemma_duplicate_changes_nothing(q: Seq<(u16, Seq<u8>)>, c: u16, e: (u16, Seq<u8>))
    requires
        settled(q, c),
        holds_id(q, e.0) || !in_window(e.0, c),
    ensures
        deliver(q, c) == (Seq::<Seq<u8>>::empty(), q, c),
{
}

} // verus!
