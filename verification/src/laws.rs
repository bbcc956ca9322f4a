//! Laws of the session manager, stated over the directory and registry
//! model that the manager's contracts use.

use vstd::prelude::*;

use crate::ids::client_id_spec;
use crate::ids::lemma_client_id_injective;
use crate::session::ConnectionRecord;
use crate::session::dir_at;
use crate::session::dir_closed;
use crate::session::dir_has;
use crate::session::dir_index;
use crate::session::dir_unique;
use crate::session::ids_index;
use crate::session::ids_unique;
use crate::session::ids_without;
use crate::session::lemma_dir_update_at;
use crate::session::lemma_ids_index_is;
use crate::session::lemma_upserted;
use crate::session::send_recorded;
use crate::session::status_disconnected;
use crate::session::upserted;
use crate::session::with_bytes_sent;
use crate::session::with_status;

verus! {

/// After a successful connect registers the record `e`, the directory —
/// and therefore the snapshot that a subsequent listing hands out —
/// contains exactly one record under the new identifier, and it is `e`:
/// the one whose status is `connected` and whose byte counters are zero.
pub proof fn lemma_connected_session_listed(d: Seq<ConnectionRecord>, e: ConnectionRecord)
    requires
        dir_unique(d),
    ensures
        dir_unique(upserted(d, e)),
        dir_has(upserted(d, e), e.id),
        dir_at(upserted(d, e), e.id) == e,
        exists|i: int|
            0 <= i < upserted(d, e).len() && #[trigger] upserted(d, e)[i] == e,
        forall|i: int, j: int|
            0 <= i < upserted(d, e).len() && 0 <= j < upserted(d, e).len() && #[trigger] upserted(
                d,
                e,
            )[i].id == e.id && #[trigger] upserted(d, e)[j].id == e.id ==> i == j,
{
    lemma_upserted(d, e);
    let d1 = upserted(d, e);
    let k = dir_index(d1, e.id);
    assert(0 <= k < d1.len() && d1[k].id == e.id);
    assert(d1[k] == e);
    assert forall|i: int, j: int|
        0 <= i < d1.len() && 0 <= j < d1.len() && #[trigger] d1[i].id == e.id && #[trigger] d1[j].id
            == e.id implies i == j by {
        if i < j {
            assert(d1[i].id != d1[j].id);
        } else if j < i {
            assert(d1[j].id != d1[i].id);
        }
    }
}

/// The total payload length of a sequence of sends.
pub open spec fn sum_lens(lens: Seq<nat>) -> nat
    decreases lens.len(),
{
    if lens.len() == 0 {
        0
    } else {
        lens[0] + sum_lens(lens.drop_first())
    }
}

/// The directory after a sequence of recorded sends on one identifier.
pub open spec fn sends_applied(d: Seq<ConnectionRecord>, id: Seq<char>, lens: Seq<nat>) -> Seq<
    ConnectionRecord,
>
    decreases lens.len(),
{
    if lens.len() == 0 {
        d
    } else {
        sends_applied(send_recorded(d, id, lens[0]), id, lens.drop_first())
    }
}

/// Accounting accumulates: after any sequence of recorded sends on one
/// identifier whose total stays within the counter's range, that
/// session's `bytes_sent` has grown by exactly the sum of the payload
/// lengths, and nothing else about the directory has changed.
pub proof fn lemma_bytes_sent_totals(d: Seq<ConnectionRecord>, id: Seq<char>, lens: Seq<nat>)
    requires
        dir_unique(d),
        dir_has(d, id),
        dir_at(d, id).bytes_sent + sum_lens(lens) <= u64::MAX,
    ensures
        dir_unique(sends_applied(d, id, lens)),
        sends_applied(d, id, lens).len() == d.len(),
        dir_has(sends_applied(d, id, lens), id),
        dir_at(sends_applied(d, id, lens), id) == with_bytes_sent(
            dir_at(d, id),
            (dir_at(d, id).bytes_sent + sum_lens(lens)) as u64,
        ),
        forall|x: Seq<char>|
            x != id ==> #[trigger] dir_has(sends_applied(d, id, lens), x) == dir_has(d, x),
        forall|x: Seq<char>|
            x != id && dir_has(d, x) ==> #[trigger] dir_at(sends_applied(d, id, lens), x) == dir_at(
                d,
                x,
            ),
    decreases lens.len(),
{
    let e = dir_at(d, id);
    if lens.len() == 0 {
        assert(with_bytes_sent(e, (e.bytes_sent + 0) as u64) =~= e);
    } else {
        let n = lens[0];
        let e1 = with_bytes_sent(e, crate::session::sat_add_u64(e.bytes_sent, n));
        assert(e.bytes_sent + n <= u64::MAX);
        assert(e1 == with_bytes_sent(e, (e.bytes_sent + n) as u64));
        let d1 = send_recorded(d, id, n);
        assert(d1 == d.update(dir_index(d, id), e1));
        lemma_dir_update_at(d, id, e1);
        assert(dir_at(d1, id) == e1);
        lemma_bytes_sent_totals(d1, id, lens.drop_first());
        assert(sum_lens(lens) == n + sum_lens(lens.drop_first()));
        assert(dir_at(sends_applied(d1, id, lens.drop_first()), id) == with_bytes_sent(
            e1,
            (e1.bytes_sent + sum_lens(lens.drop_first())) as u64,
        ));
        assert(with_bytes_sent(e1, (e1.bytes_sent + sum_lens(lens.drop_first())) as u64)
            =~= with_bytes_sent(e, (e.bytes_sent + sum_lens(lens)) as u64));
        assert(sends_applied(d, id, lens) == sends_applied(d1, id, lens.drop_first()));
    }
}

/// A recorded send on one identifier never moves any other session's
/// record: sends on distinct identifiers do not interfere, whatever
/// their interleaving.
pub proof fn lemma_send_frame(d: Seq<ConnectionRecord>, id: Seq<char>, other: Seq<char>, n: nat)
    requires
        dir_unique(d),
        other != id,
    ensures
        dir_unique(send_recorded(d, other, n)),
        dir_has(send_recorded(d, other, n), id) == dir_has(d, id),
        dir_has(d, id) ==> dir_at(send_recorded(d, other, n), id) == dir_at(d, id),
{
    if dir_has(d, other) {
        let e1 = with_bytes_sent(
            dir_at(d, other),
            crate::session::sat_add_u64(dir_at(d, other).bytes_sent, n),
        );
        lemma_dir_update_at(d, other, e1);
    }
}

/// Disconnect is idempotent on the whole state: a second disconnect of
/// the same identifier moves neither the directory nor the connection
/// registry.
pub proof fn lemma_disconnect_idempotent(
    d: Seq<ConnectionRecord>,
    id: Seq<char>,
    v: Seq<Seq<char>>,
)
    requires
        dir_unique(d),
        ids_unique(v),
    ensures
        dir_closed(dir_closed(d, id), id) == dir_closed(d, id),
        ids_without(ids_without(v, id), id) == ids_without(v, id),
{
    if dir_has(d, id) {
        let e1 = with_status(dir_at(d, id), status_disconnected());
        lemma_dir_update_at(d, id, e1);
        let d1 = dir_closed(d, id);
        assert(dir_at(d1, id) == e1);
        let e2 = with_status(dir_at(d1, id), status_disconnected());
        assert(e2 =~= e1);
        let k1 = dir_index(d1, id);
        assert(d1[k1] == e1);
        assert(dir_closed(d1, id) =~= d1);
    }
    if v.contains(id) {
        let k = ids_index(v, id);
        lemma_ids_index_is(v, id, k);
        let v1 = v.remove(k);
        assert(ids_without(v, id) == v1);
        assert(!v1.contains(id)) by {
            if v1.contains(id) {
                let j = choose|j: int| 0 <= j < v1.len() && v1[j] == id;
                if j < k {
                    assert(v1[j] == v[j]);
                    assert(v[j] != v[k]);
                } else {
                    assert(v1[j] == v[j + 1]);
                    assert(v[k] != v[j + 1]);
                }
            }
        }
    }
}

/// Connects for distinct `(host, port)` pairs never interfere: the two
/// identifiers differ, and after both registrations each identifier
/// carries its own record — no update is lost.
pub proof fn lemma_independent_connects(
    d: Seq<ConnectionRecord>,
    e1: ConnectionRecord,
    e2: ConnectionRecord,
    h1: Seq<char>,
    p1: u16,
    h2: Seq<char>,
    p2: u16,
)
    requires
        dir_unique(d),
        e1.id == client_id_spec(h1, p1),
        e2.id == client_id_spec(h2, p2),
        !(h1 == h2 && p1 == p2),
    ensures
        e1.id != e2.id,
        dir_unique(upserted(upserted(d, e1), e2)),
        dir_has(upserted(upserted(d, e1), e2), e1.id),
        dir_at(upserted(upserted(d, e1), e2), e1.id) == e1,
        dir_has(upserted(upserted(d, e1), e2), e2.id),
        dir_at(upserted(upserted(d, e1), e2), e2.id) == e2,
{
    if e1.id == e2.id {
        lemma_client_id_injective(h1, p1, h2, p2);
    }
    lemma_upserted(d, e1);
    lemma_upserted(upserted(d, e1), e2);
}

} // verus!
