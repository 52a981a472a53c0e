//! Reconciliation: which of the relay's assets a client must be sent.

use crate::assets::AssetHashMap;
use vstd::prelude::*;

verus! {

/// The relay holds `name`, and the client holds no digest of it, or another.
pub open spec fn needs_update(
    server: Map<Seq<char>, Seq<char>>,
    client: Map<Seq<char>, Seq<char>>,
    name: Seq<char>,
) -> bool {
    server.contains_key(name) && !(client.contains_key(name) && client[name] == server[name])
}

/// The client's digests once it has stored every asset that the relay sent
/// it, each of which now has the relay's digest.
pub open spec fn after_transfers(
    server: Map<Seq<char>, Seq<char>>,
    client: Map<Seq<char>, Seq<char>>,
) -> Map<Seq<char>, Seq<char>> {
    client.union_prefer_right(server.restrict(Set::new(|n: Seq<char>| needs_update(server, client, n))))
}

/// The names of the relay's assets that the client lacks or holds with
/// another digest, each once. Names that only the client holds are not
/// considered.
pub fn files_to_send(server: &AssetHashMap, client: &AssetHashMap) -> (r: Vec<String>)
    requires
        server.wf(),
        client.wf(),
    ensures
        forall|n: Seq<char>|
            #![trigger needs_update(server@, client@, n)]
            needs_update(server@, client@, n) <==> exists|i: int| 0 <= i < r.len() && r[i]@ == n,
        forall|i: int, j: int| 0 <= i < r.len() && 0 <= j < r.len() && i != j ==> r[i]@ != r[j]@,
{
    let mut r: Vec<String> = Vec::new();
    let ghost mut idx: Seq<int> = Seq::empty();
    let n = server.len();
    let mut i: usize = 0;
    while i < n
        invariant
            n == server.spec_len(),
            server.wf(),
            client.wf(),
            i <= n,
            r.len() == idx.len(),
            forall|j: int|
                0 <= j < r.len() ==> 0 <= #[trigger] idx[j] < i && r[j]@ == server.name(idx[j])
                    && needs_update(server@, client@, server.name(idx[j])),
            forall|j1: int, j2: int| 0 <= j1 < j2 < r.len() ==> idx[j1] < idx[j2],
            forall|k: int|
                0 <= k < i && needs_update(server@, client@, #[trigger] server.name(k)) ==> exists|
                    j: int,
                | 0 <= j < r.len() && idx[j] == k,
        decreases n - i,
    {
        let name = server.name_at(i);
        let digest = server.digest_at(i);
        proof {
            server.lemma_entry(i as int);
        }
        let stale = match client.get(name) {
            Some(h) => *h != *digest,
            None => true,
        };
        let ghost old_idx = idx;
        let ghost old_len = r.len();
        if stale {
            r.push(name.clone());
            proof {
                idx = idx.push(i as int);
                assert(idx[idx.len() - 1] == i);
            }
        }
        proof {
            assert forall|k: int|
                0 <= k < i + 1 && needs_update(server@, client@, #[trigger] server.name(k)) implies exists|
                    j: int,
                | 0 <= j < r.len() && idx[j] == k by {
                if k < i {
                    let j = choose|j: int| 0 <= j < old_len && old_idx[j] == k;
                    assert(idx[j] == old_idx[j]);
                } else {
                    assert(idx[old_len as int] == k);
                }
            }
        }
        i = i + 1;
    }
    proof {
        assert forall|j: int| 0 <= j < r.len() implies needs_update(server@, client@, r[j]@) by {
            assert(0 <= idx[j] < n);
        }
        assert forall|m: Seq<char>|
            #![trigger needs_update(server@, client@, m)]
            needs_update(server@, client@, m) implies exists|j: int|
                0 <= j < r.len() && r[j]@ == m by {
            let k = choose|k: int| 0 <= k < server.spec_len() && server.name(k) == m;
            let j = choose|j: int| 0 <= j < r.len() && idx[j] == k;
            assert(r[j]@ == m);
        }
        assert forall|i1: int, i2: int|
            0 <= i1 < r.len() && 0 <= i2 < r.len() && i1 != i2 implies r[i1]@ != r[i2]@ by {
            if i1 < i2 {
                assert(idx[i1] < idx[i2]);
            } else {
                assert(idx[i2] < idx[i1]);
            }
        }
    }
    r
}

/// A client that already holds exactly the relay's digests is sent nothing.
pub proof fn lemma_in_sync_sends_nothing(server: AssetHashMap, client: AssetHashMap)
    requires
        server.wf(),
        client.wf(),
        client@ == server@,
    ensures
        forall|n: Seq<char>| !needs_update(server@, client@, n),
{
}

/// Once a client has stored every asset of one reconciliation, a second
/// reconciliation against the same relay assets sends nothing.
pub proof fn lemma_round_trip(server: AssetHashMap, client: AssetHashMap)
    requires
        server.wf(),
        client.wf(),
    ensures
        forall|n: Seq<char>| !needs_update(server@, after_transfers(server@, client@), n),
{
    let updated = after_transfers(server@, client@);
    assert forall|n: Seq<char>| !needs_update(server@, updated, n) by {
        if server@.contains_key(n) && needs_update(server@, client@, n) {
            assert(server@.restrict(Set::new(|m: Seq<char>| needs_update(server@, client@, m))).contains_key(n));
        }
    }
}

} // verus!
