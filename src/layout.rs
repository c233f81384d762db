//! How the workspace panel arranges workspaces: one column per monitor (and
//! one for the special workspaces), each sorted by id.

use vstd::prelude::*;

use crate::text::{all_digits, chars_of, digits_capped, digits_value, DIGITS_CAP};
use crate::workspace::{views, Workspace, WorkspaceView};

verus! {

/// The column key of the special workspaces (those with a negative id); it
/// sorts above every monitor id.
pub const SPECIAL_COLUMN: u64 = 0x1_0000_0000;

/// The column a workspace goes to.
pub open spec fn column_key(w: WorkspaceView) -> u64 {
    if w.id < 0 {
        SPECIAL_COLUMN
    } else {
        w.monitor_id as u64
    }
}

/// The workspaces of `ws` that go to column `key`, in their order.
pub open spec fn in_column(ws: Seq<WorkspaceView>, key: u64) -> Seq<WorkspaceView>
    decreases ws.len(),
{
    if ws.len() == 0 {
        Seq::empty()
    } else {
        let r = in_column(ws.drop_last(), key);
        if column_key(ws.last()) == key {
            r.push(ws.last())
        } else {
            r
        }
    }
}

/// Ids never decrease along `ws`.
pub open spec fn sorted_by_id(ws: Seq<WorkspaceView>) -> bool {
    forall|i: int, j: int| 0 <= i < j < ws.len() ==> ws[i].id <= ws[j].id
}

/// One column of the panel: its key and its workspaces, bottom first.
pub struct WorkspaceColumn {
    pub key: u64,
    pub workspaces: Vec<Workspace>,
}

/// The column key of a workspace.
pub fn column_key_of(w: &Workspace) -> (r: u64)
    ensures
        r == column_key(w@),
{
    if w.id() < 0 {
        SPECIAL_COLUMN
    } else {
        w.monitor_id() as u64
    }
}

/// The workspaces of column `key`, sorted by id (a permutation of
/// `in_column(ws, key)`).
fn column_members(ws: &Vec<Workspace>, key: u64) -> (r: Vec<Workspace>)
    ensures
        sorted_by_id(views(r@)),
        views(r@).to_multiset() == in_column(views(ws@), key).to_multiset(),
{
    let mut out: Vec<Workspace> = Vec::new();
    let mut i: usize = 0;
    proof {
        assert(views(ws@).take(0) =~= Seq::<WorkspaceView>::empty());
        assert(views(out@) =~= Seq::<WorkspaceView>::empty());
    }
    while i < ws.len()
        invariant
            i <= ws.len(),
            sorted_by_id(views(out@)),
            views(out@).to_multiset() == in_column(views(ws@).take(i as int), key).to_multiset(),
        decreases ws.len() - i,
    {
        let ghost pre = views(ws@).take(i as int);
        proof {
            assert(views(ws@).take(i + 1).drop_last() =~= pre);
            assert(views(ws@).take(i + 1).last() == ws@[i as int]@);
        }
        if column_key_of(&ws[i]) == key {
            let w = ws[i].duplicate();
            let mut pos: usize = 0;
            while pos < out.len() && out[pos].id() <= w.id()
                invariant
                    pos <= out.len(),
                    forall|j: int| 0 <= j < pos ==> views(out@)[j].id <= w@.id,
                decreases out.len() - pos,
            {
                pos = pos + 1;
            }
            let ghost old_v = views(out@);
            out.insert(pos, w);
            proof {
                let nv = views(out@);
                assert(nv =~= old_v.insert(pos as int, w@));
                old_v.insert_ensures(pos as int, w@);
                assert forall|a: int, b: int| 0 <= a < b < nv.len() implies nv[a].id <= nv[b].id by {
                    if b < pos {
                    } else if b == pos {
                        assert(nv[a] == old_v[a]);
                    } else if a < pos {
                        assert(nv[b] == old_v[b - 1]);
                    } else if a == pos {
                        assert(nv[b] == old_v[b - 1]);
                        assert(old_v[pos as int].id > w@.id);
                        assert(old_v[pos as int].id <= old_v[b - 1].id);
                    } else {
                        assert(nv[a] == old_v[a - 1]);
                        assert(nv[b] == old_v[b - 1]);
                    }
                }
                assert(nv.remove(pos as int) =~= old_v);
                nv.to_multiset_ensures();
                assert(old_v.to_multiset() == nv.to_multiset().remove(w@));
                assert(nv.to_multiset().count(w@) > 0);
                assert(nv.to_multiset() =~= old_v.to_multiset().insert(w@));
                pre.push(w@).to_multiset_ensures();
                in_column(pre, key).to_multiset_ensures();
                assert(in_column(views(ws@).take(i + 1), key) == in_column(pre, key).push(w@));
            }
        } else {
        }
        i = i + 1;
    }
    proof {
        assert(views(ws@).take(ws.len() as int) =~= views(ws@));
    }
    out
}

/// `keys` strictly decreases.
pub open spec fn strictly_decreasing(keys: Seq<u64>) -> bool {
    forall|c: int, d: int| 0 <= c < d < keys.len() ==> keys[c] > keys[d]
}

proof fn lemma_insert_keeps_decreasing(keys: Seq<u64>, pos: int, k: u64)
    requires
        strictly_decreasing(keys),
        0 <= pos <= keys.len(),
        forall|c: int| 0 <= c < pos ==> keys[c] > k,
        pos < keys.len() ==> keys[pos] < k,
    ensures
        strictly_decreasing(keys.insert(pos, k)),
{
    keys.insert_ensures(pos, k);
    let n = keys.insert(pos, k);
    assert forall|c: int, d: int| 0 <= c < d < n.len() implies n[c] > n[d] by {
        if d < pos {
        } else if d == pos {
        } else if c < pos {
            assert(n[d] == keys[d - 1]);
        } else if c == pos {
            assert(n[d] == keys[d - 1]);
            assert(keys[pos] >= keys[d - 1]);
        } else {
            assert(n[c] == keys[c - 1]);
            assert(n[d] == keys[d - 1]);
        }
    }
}

/// The keys of the columns that the workspaces of `ws` go to.
pub open spec fn keys_of(ws: Seq<WorkspaceView>) -> Set<u64> {
    Set::new(|k: u64| exists|j: int| 0 <= j < ws.len() && column_key(ws[j]) == k)
}

proof fn lemma_keys_of_push(ws: Seq<WorkspaceView>, w: WorkspaceView)
    ensures
        keys_of(ws.push(w)) == keys_of(ws).insert(column_key(w)),
{
    let n = ws.push(w);
    assert forall|k: u64| keys_of(n).contains(k) <==> keys_of(ws).insert(column_key(w)).contains(
        k,
    ) by {
        if keys_of(n).contains(k) {
            let j = choose|j: int| 0 <= j < n.len() && column_key(n[j]) == k;
            if j < ws.len() {
                assert(ws[j] == n[j]);
            }
        }
        if keys_of(ws).contains(k) {
            let j = choose|j: int| 0 <= j < ws.len() && column_key(ws[j]) == k;
            assert(n[j] == ws[j]);
        }
        if k == column_key(w) {
            assert(n[ws.len() as int] == w);
        }
    }
    assert(keys_of(n) =~= keys_of(ws).insert(column_key(w)));
}

/// The distinct column keys of `ws`, decreasing.
fn column_keys(ws: &Vec<Workspace>) -> (keys: Vec<u64>)
    ensures
        strictly_decreasing(keys@),
        keys@.to_set() == keys_of(views(ws@)),
{
    let mut keys: Vec<u64> = Vec::new();
    let mut i: usize = 0;
    proof {
        assert(views(ws@).take(0) =~= Seq::<WorkspaceView>::empty());
        assert(keys_of(views(ws@).take(0)) =~= Set::<u64>::empty());
        assert(keys@.to_set() =~= Set::<u64>::empty());
    }
    while i < ws.len()
        invariant
            i <= ws.len(),
            strictly_decreasing(keys@),
            keys@.to_set() == keys_of(views(ws@).take(i as int)),
        decreases ws.len() - i,
    {
        let k = column_key_of(&ws[i]);
        let ghost pre = views(ws@).take(i as int);
        proof {
            assert(views(ws@).take(i + 1) =~= pre.push(ws@[i as int]@));
            lemma_keys_of_push(pre, ws@[i as int]@);
        }
        let mut pos: usize = 0;
        while pos < keys.len() && keys[pos] > k
            invariant
                pos <= keys.len(),
                forall|c: int| 0 <= c < pos ==> keys@[c] > k,
            decreases keys.len() - pos,
        {
            pos = pos + 1;
        }
        if pos < keys.len() && keys[pos] == k {
            proof {
                assert(keys@.to_set().contains(k));
                assert(keys@.to_set().insert(k) =~= keys@.to_set());
            }
        } else {
            let ghost old_k = keys@;
            keys.insert(pos, k);
            proof {
                lemma_insert_keeps_decreasing(old_k, pos as int, k);
                assert(keys@ == old_k.insert(pos as int, k));
                old_k.insert_ensures(pos as int, k);
                assert forall|x: u64| keys@.to_set().contains(x) <==> old_k.to_set().insert(
                    k,
                ).contains(x) by {
                    if keys@.to_set().contains(x) {
                        let c = choose|c: int| 0 <= c < keys@.len() && keys@[c] == x;
                        if c < pos {
                            assert(old_k[c] == x);
                        } else if c > pos {
                            assert(old_k[c - 1] == x);
                        }
                    }
                    if old_k.to_set().contains(x) {
                        let c = choose|c: int| 0 <= c < old_k.len() && old_k[c] == x;
                        if c < pos {
                            assert(keys@[c] == x);
                        } else {
                            assert(keys@[c + 1] == x);
                        }
                    }
                    if x == k {
                        assert(keys@[pos as int] == x);
                    }
                }
                assert(keys@.to_set() =~= old_k.to_set().insert(k));
            }
        }
        i = i + 1;
    }
    proof {
        assert(views(ws@).take(ws.len() as int) =~= views(ws@));
    }
    keys
}

/// The columns of the panel, by decreasing key (the special workspaces first):
/// a column for each key that some workspace goes to, each holding exactly its
/// workspaces, sorted by id.
pub fn workspace_columns(ws: &Vec<Workspace>) -> (r: Vec<WorkspaceColumn>)
    ensures
        strictly_decreasing(r@.map_values(|col: WorkspaceColumn| col.key)),
        r@.map_values(|col: WorkspaceColumn| col.key).to_set() == keys_of(views(ws@)),
        forall|c: int|
            #![trigger r@[c]]
            0 <= c < r@.len() ==> sorted_by_id(views(r@[c].workspaces@)) && views(
                r@[c].workspaces@,
            ).to_multiset() == in_column(views(ws@), r@[c].key).to_multiset(),
{
    let keys = column_keys(ws);
    let mut columns: Vec<WorkspaceColumn> = Vec::new();
    let mut c: usize = 0;
    while c < keys.len()
        invariant
            c <= keys.len(),
            columns@.map_values(|col: WorkspaceColumn| col.key) == keys@.take(c as int),
            forall|e: int|
                #![trigger columns@[e]]
                0 <= e < columns@.len() ==> sorted_by_id(views(columns@[e].workspaces@)) && views(
                    columns@[e].workspaces@,
                ).to_multiset() == in_column(views(ws@), columns@[e].key).to_multiset(),
        decreases keys.len() - c,
    {
        let members = column_members(ws, keys[c]);
        let ghost before = columns@;
        columns.push(WorkspaceColumn { key: keys[c], workspaces: members });
        proof {
            assert(columns@.map_values(|col: WorkspaceColumn| col.key) =~= before.map_values(
                |col: WorkspaceColumn| col.key,
            ).push(keys@[c as int]));
            assert(keys@.take(c + 1) =~= keys@.take(c as int).push(keys@[c as int]));
            assert forall|e: int|
                #![trigger columns@[e]]
                0 <= e < columns@.len() implies sorted_by_id(views(columns@[e].workspaces@))
                && views(columns@[e].workspaces@).to_multiset() == in_column(
                views(ws@),
                columns@[e].key,
            ).to_multiset() by {
                if e < before.len() {
                    assert(columns@[e] == before[e]);
                }
            }
        }
        c = c + 1;
    }
    proof {
        assert(keys@.take(keys.len() as int) =~= keys@);
    }
    columns
}

/// Decimal digits without superfluous leading zeros.
pub open spec fn canonical_digits(b: Seq<char>) -> bool {
    b.len() > 0 && all_digits(b) && (b.len() == 1 || b[0] != '0')
}

/// `s` is the decimal text of `id`, as `i32::to_string` writes it.
pub open spec fn is_decimal_of(s: Seq<char>, id: i32) -> bool {
    if id < 0 {
        s.len() >= 2 && s[0] == '-' && canonical_digits(s.skip(1)) && digits_value(s.skip(1)) == -id
    } else {
        canonical_digits(s) && digits_value(s) == id
    }
}

/// Whether `v[lo..hi]` is canonical digits of value `n` (at most `DIGITS_CAP`).
fn canonical_value_at(v: &Vec<char>, lo: usize, hi: usize, n: u64) -> (r: bool)
    requires
        lo <= hi <= v.len(),
        n < DIGITS_CAP,
    ensures
        r == (canonical_digits(v@.subrange(lo as int, hi as int)) && digits_value(
            v@.subrange(lo as int, hi as int),
        ) == n),
{
    if hi == lo {
        return false;
    }
    if hi - lo > 1 && v[lo] == '0' {
        return false;
    }
    match digits_capped(v, lo, hi) {
        Some(m) => m == n,
        None => false,
    }
}

/// Whether a workspace's box shows its name as a title: it does unless the
/// name is just the decimal text of its id.
pub fn shows_title(w: &Workspace) -> (r: bool)
    ensures
        r == !is_decimal_of(w@.name, w@.id),
{
    let v = chars_of(w.name().as_str());
    let id = w.id();
    if id < 0 {
        if v.len() < 2 || v[0] != '-' {
            return true;
        }
        proof {
            assert(v@.skip(1) =~= v@.subrange(1, v.len() as int));
        }
        let n: u64 = (0i64 - id as i64) as u64;
        !canonical_value_at(&v, 1, v.len(), n)
    } else {
        proof {
            assert(v@ =~= v@.subrange(0, v.len() as int));
        }
        !canonical_value_at(&v, 0, v.len(), id as u64)
    }
}

} // verus!
