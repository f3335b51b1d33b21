use vstd::prelude::*;

use crate::names::{
    lemma_name_lt_asymmetric, lemma_name_lt_irreflexive, lemma_name_lt_total,
    lemma_name_lt_transitive, name_less, name_lt,
};

verus! {

/// Guidance class of a missile; it decides which table and which column layout apply.
#[derive(Clone, Copy, Debug, PartialEq, Eq, Structural)]
pub enum SeekerKind {
    Infrared,
    Radar,
}

/// One catalog record, with each numeric attribute already written out as decimal text.
pub struct MissileFields {
    pub name: String,
    pub seeker: SeekerKind,
    pub end_speed: String,
    pub delta_v: String,
    pub load_factor_max: String,
    pub req_accel_max: String,
    pub bands: [String; 4],
    pub fov: String,
    pub gate: String,
    pub lock_angle_max: String,
    pub angle_max: String,
    pub warmup_time: String,
    pub work_time: String,
    pub cageable: bool,
}

/// What a `MissileFields` holds, as mathematical values.
pub struct MissileView {
    pub name: Seq<char>,
    pub seeker: SeekerKind,
    pub end_speed: Seq<char>,
    pub delta_v: Seq<char>,
    pub load_factor_max: Seq<char>,
    pub req_accel_max: Seq<char>,
    pub bands: Seq<Seq<char>>,
    pub fov: Seq<char>,
    pub gate: Seq<char>,
    pub lock_angle_max: Seq<char>,
    pub angle_max: Seq<char>,
    pub warmup_time: Seq<char>,
    pub work_time: Seq<char>,
    pub cageable: bool,
}

impl View for MissileFields {
    type V = MissileView;

    open spec fn view(&self) -> MissileView {
        MissileView {
            name: self.name@,
            seeker: self.seeker,
            end_speed: self.end_speed@,
            delta_v: self.delta_v@,
            load_factor_max: self.load_factor_max@,
            req_accel_max: self.req_accel_max@,
            bands: self.bands@.map_values(|b: String| b@),
            fov: self.fov@,
            gate: self.gate@,
            lock_angle_max: self.lock_angle_max@,
            angle_max: self.angle_max@,
            warmup_time: self.warmup_time@,
            work_time: self.work_time@,
            cageable: self.cageable,
        }
    }
}

/// The names of a catalog, in catalog order.
pub open spec fn names_of(ms: Seq<MissileFields>) -> Seq<Seq<char>> {
    ms.map_values(|m: MissileFields| m.name@)
}

/// Record `i` is listed before record `j`: its name comes first, or the names are
/// equal and it came first in the source.
pub open spec fn precedes(names: Seq<Seq<char>>, i: int, j: int) -> bool {
    name_lt(names[i], names[j]) || (names[i] == names[j] && i < j)
}

/// `order` lists every position of `names` once, sorted by name, with records of
/// equal name kept in source order.
pub open spec fn is_catalog_order(names: Seq<Seq<char>>, order: Seq<usize>) -> bool {
    &&& order.len() == names.len()
    &&& forall|k: int| 0 <= k < order.len() ==> order[k] < names.len()
    &&& forall|x: int| 0 <= x < names.len() ==> #[trigger] order.contains(x as usize)
    &&& forall|a: int, b: int|
        0 <= a < b < order.len() ==> precedes(names, order[a] as int, order[b] as int)
}

/// The sorted order of a catalog: the one sequence that `is_catalog_order` admits.
pub open spec fn catalog_order(names: Seq<Seq<char>>) -> Seq<usize> {
    choose|order: Seq<usize>| is_catalog_order(names, order)
}

proof fn lemma_precedes_asymmetric(names: Seq<Seq<char>>, i: int, j: int)
    ensures
        !(precedes(names, i, j) && precedes(names, j, i)),
{
    lemma_name_lt_asymmetric(names[i], names[j]);
    lemma_name_lt_irreflexive(names[i]);
}

/// Two sorted orders of the same names are the same sequence.
pub proof fn lemma_catalog_order_unique(names: Seq<Seq<char>>, o1: Seq<usize>, o2: Seq<usize>)
    requires
        is_catalog_order(names, o1),
        is_catalog_order(names, o2),
    ensures
        o1 == o2,
{
    assert forall|k: int| 0 <= k < o1.len() implies o1[k] == o2[k] by {
        lemma_catalog_order_agree(names, o1, o2, k);
    }
    assert(o1 =~= o2);
}

proof fn lemma_catalog_order_agree(names: Seq<Seq<char>>, o1: Seq<usize>, o2: Seq<usize>, k: int)
    requires
        is_catalog_order(names, o1),
        is_catalog_order(names, o2),
        0 <= k < o1.len(),
    ensures
        o1[k] == o2[k],
    decreases k,
{
    assert forall|q: int| 0 <= q < k implies o1[q] == o2[q] by {
        lemma_catalog_order_agree(names, o1, o2, q);
    }
    let a = o1[k];
    let b = o2[k];
    if a != b {
        assert(o1.contains(b as int as usize));
        let j1 = choose|j: int| 0 <= j < o1.len() && o1[j] == b;
        assert(o2.contains(a as int as usize));
        let j2 = choose|j: int| 0 <= j < o2.len() && o2[j] == a;
        lemma_precedes_asymmetric(names, a as int, b as int);
        lemma_precedes_asymmetric(names, b as int, b as int);
        lemma_precedes_asymmetric(names, a as int, a as int);
        if j1 < k {
            assert(o2[j1] == b);
            assert(precedes(names, o2[j1] as int, o2[k] as int));
        } else if j2 < k {
            assert(o1[j2] == a);
            assert(precedes(names, o1[j2] as int, o1[k] as int));
        } else {
            assert(precedes(names, o1[k] as int, o1[j1] as int));
            assert(precedes(names, o2[k] as int, o2[j2] as int));
        }
    }
}

/// The sort is total and stable: every record appears exactly once, names never
/// descend, and records with equal names keep their relative source order.
pub proof fn lemma_sort_stable_total(names: Seq<Seq<char>>, order: Seq<usize>)
    requires
        is_catalog_order(names, order),
    ensures
        order.len() == names.len(),
        forall|x: int| 0 <= x < names.len() ==> #[trigger] order.contains(x as usize),
        order.no_duplicates(),
        forall|a: int, b: int|
            0 <= a < b < order.len() ==> !name_lt(names[order[b] as int], names[order[a] as int]),
        forall|a: int, b: int|
            0 <= a < b < order.len() && names[order[a] as int] == names[order[b] as int]
                ==> order[a] < order[b],
{
    assert forall|a: int, b: int| 0 <= a < b < order.len() implies !name_lt(
        names[order[b] as int],
        names[order[a] as int],
    ) by {
        assert(precedes(names, order[a] as int, order[b] as int));
        lemma_name_lt_asymmetric(names[order[a] as int], names[order[b] as int]);
        lemma_name_lt_irreflexive(names[order[a] as int]);
    }
    assert forall|a: int, b: int| 0 <= a < order.len() && 0 <= b < order.len() && a != b
        implies order[a] != order[b] by {
        let (lo, hi) = if a < b { (a, b) } else { (b, a) };
        lemma_precedes_asymmetric(names, order[lo] as int, order[hi] as int);
    }
    assert forall|a: int, b: int|
        0 <= a < b < order.len() && names[order[a] as int] == names[order[b] as int]
        implies order[a] < order[b] by {
        assert(precedes(names, order[a] as int, order[b] as int));
        lemma_name_lt_irreflexive(names[order[a] as int]);
    }
}

/// Positions of the catalog sorted by name; records of equal name keep their
/// source order.
pub fn sort_order(missiles: &Vec<MissileFields>) -> (r: Vec<usize>)
    ensures
        is_catalog_order(names_of(missiles@), r@),
        r@ == catalog_order(names_of(missiles@)),
{
    let ghost names = names_of(missiles@);
    let n = missiles.len();
    let mut r: Vec<usize> = Vec::new();
    let mut i: usize = 0;
    while i < n
        invariant
            n == missiles@.len(),
            names == names_of(missiles@),
            i <= n,
            r@.len() == i,
            forall|k: int| 0 <= k < r@.len() ==> r@[k] < i,
            forall|x: int| 0 <= x < i ==> #[trigger] r@.contains(x as usize),
            forall|a: int, b: int|
                0 <= a < b < r@.len() ==> precedes(names, r@[a] as int, r@[b] as int),
        decreases n - i,
    {
        let mut p: usize = 0;
        while p < r.len() && !name_less(missiles[i].name.as_str(), missiles[r[p]].name.as_str())
            invariant
                n == missiles@.len(),
                names == names_of(missiles@),
                i < n,
                r@.len() == i,
                forall|k: int| 0 <= k < r@.len() ==> r@[k] < i,
                p <= r@.len(),
                forall|q: int| 0 <= q < p ==> !name_lt(names[i as int], names[r@[q] as int]),
            decreases r@.len() - p,
        {
            p = p + 1;
        }
        let ghost old_r = r@;
        r.insert(p, i);
        proof {
            lemma_insert_keeps_order(names, old_r, r@, p as int, i as int);
        }
        i = i + 1;
    }
    proof {
        lemma_catalog_order_unique(names, r@, catalog_order(names));
    }
    r
}

proof fn lemma_insert_keeps_order(
    names: Seq<Seq<char>>,
    old_r: Seq<usize>,
    r: Seq<usize>,
    p: int,
    i: int,
)
    requires
        0 <= i < names.len(),
        i <= usize::MAX,
        old_r.len() == i,
        0 <= p <= i,
        r == old_r.insert(p, i as usize),
        forall|k: int| 0 <= k < old_r.len() ==> old_r[k] < i,
        forall|x: int| 0 <= x < i ==> #[trigger] old_r.contains(x as usize),
        forall|a: int, b: int|
            0 <= a < b < old_r.len() ==> precedes(names, old_r[a] as int, old_r[b] as int),
        forall|q: int| 0 <= q < p ==> !name_lt(names[i], names[old_r[q] as int]),
        p < old_r.len() ==> name_lt(names[i], names[old_r[p] as int]),
    ensures
        r.len() == i + 1,
        forall|k: int| 0 <= k < r.len() ==> r[k] < i + 1,
        forall|x: int| 0 <= x < i + 1 ==> #[trigger] r.contains(x as usize),
        forall|a: int, b: int| 0 <= a < b < r.len() ==> precedes(names, r[a] as int, r[b] as int),
{
    assert forall|x: int| 0 <= x < i + 1 implies #[trigger] r.contains(x as usize) by {
        if x == i {
            assert(r[p] == x as usize);
        } else {
            assert(old_r.contains(x as usize));
            let k = choose|k: int| 0 <= k < old_r.len() && old_r[k] == x as usize;
            if k < p {
                assert(r[k] == x as usize);
            } else {
                assert(r[k + 1] == x as usize);
            }
        }
    }
    assert forall|a: int, b: int| 0 <= a < b < r.len() implies precedes(
        names,
        r[a] as int,
        r[b] as int,
    ) by {
        if b == p {
            let oa = old_r[a] as int;
            lemma_name_lt_total(names[oa], names[i]);
        } else if a == p {
            let op = old_r[p] as int;
            let ob = old_r[b - 1] as int;
            if b - 1 > p {
                assert(precedes(names, op, ob));
                if name_lt(names[op], names[ob]) {
                    lemma_name_lt_transitive(names[i], names[op], names[ob]);
                }
            }
        }
    }
}

} // verus!
