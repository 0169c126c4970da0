//! Hydrogen classification and the hydrogen-reconstruction table: the
//! pattern a heavy atom's hydrogens fall under is determined by the
//! atom's total degree and its number of hydrogen neighbors, and each
//! classified atom yields one record naming the support atoms from which
//! hydrogen positions are regenerated.

use vstd::prelude::*;
use vstd::string::StrSliceExecFns;
use vstd::string::StringExecFns;

use crate::error::GenError;
use crate::mol2::Atom;
use crate::mol2::AtomV;
use crate::mol2::BondV;
use crate::mol2::MOL2;
use crate::mol2::MOL2V;
use crate::text::lemma_concat_cancel_left;
use crate::text::lemma_dec_injective;
use crate::text::spec_dec;
use crate::text::str_eq;
use crate::text::u64_to_string;
use crate::text::join_sp;
use crate::text::join_nl;
use crate::text::join_tokens;
use crate::text::join_lines;
use crate::text::contains_id;

verus! {

/// Pattern assigned to the hydrogens of a heavy atom with total degree
/// `d` and `n` hydrogen neighbors. The six listed combinations are the
/// only classified ones; every other pair is unclassified (0).
pub open spec fn spec_classify(d: nat, n: nat) -> int {
    if d == 3 && n == 1 {
        1
    } else if d == 2 && n == 1 {
        2
    } else if d == 3 && n == 2 {
        3
    } else if d == 4 && n == 3 {
        4
    } else if d == 4 && n == 1 {
        5
    } else if d == 4 && n == 2 {
        6
    } else {
        0
    }
}

/// Number of hydrogens a record of the given pattern describes.
pub open spec fn spec_multiplicity(pattern: int) -> int {
    if pattern == 3 || pattern == 6 {
        2
    } else if pattern == 4 {
        3
    } else {
        1
    }
}

/// The lookup table, stated whole: each documented (degree,
/// hydrogen-count) pair yields its pattern, and every other pair is
/// unclassified.
pub proof fn lemma_classify_table()
    ensures
        spec_classify(3, 1) == 1,
        spec_classify(2, 1) == 2,
        spec_classify(3, 2) == 3,
        spec_classify(4, 3) == 4,
        spec_classify(4, 1) == 5,
        spec_classify(4, 2) == 6,
        forall|d: nat, n: nat|
            !((d == 3 && n == 1) || (d == 2 && n == 1) || (d == 3 && n == 2) || (d == 4 && n == 3)
                || (d == 4 && n == 1) || (d == 4 && n == 2)) ==> #[trigger] spec_classify(d, n)
                == 0,
{
}

/// Atom ids adjacent to `id`, in bond-list order; each bond is read in
/// both directions.
pub open spec fn spec_adj(bonds: Seq<BondV>, id: int) -> Seq<int>
    decreases bonds.len(),
{
    if bonds.len() == 0 {
        Seq::empty()
    } else {
        let tail = spec_adj(bonds.drop_first(), id);
        if bonds[0].a1 == id {
            seq![bonds[0].a2] + tail
        } else if bonds[0].a2 == id {
            seq![bonds[0].a1] + tail
        } else {
            tail
        }
    }
}

/// Every neighbor of an atom of a well-formed graph is an existing atom.
pub proof fn lemma_adj_in_range(bonds: Seq<BondV>, id: int, n: int)
    requires
        forall|k: int|
            0 <= k < bonds.len() ==> 1 <= (#[trigger] bonds[k]).a1 <= n && 1 <= bonds[k].a2 <= n,
    ensures
        forall|k: int| 0 <= k < spec_adj(bonds, id).len() ==> 1 <= #[trigger] spec_adj(bonds, id)[k]
            <= n,
    decreases bonds.len(),
{
    if bonds.len() > 0 {
        assert(forall|k: int|
            0 <= k < bonds.drop_first().len() ==> 1 <= (#[trigger] bonds.drop_first()[k]).a1 <= n
                && 1 <= bonds.drop_first()[k].a2 <= n);
        lemma_adj_in_range(bonds.drop_first(), id, n);
        let s = spec_adj(bonds, id);
        let tail = spec_adj(bonds.drop_first(), id);
        assert(1 <= bonds[0].a1 <= n && 1 <= bonds[0].a2 <= n);
        assert forall|k: int| 0 <= k < s.len() implies 1 <= #[trigger] s[k] <= n by {
            if bonds[0].a1 == id || bonds[0].a2 == id {
                if k > 0 {
                    assert(s[k] == tail[k - 1]);
                }
            } else {
                assert(s[k] == tail[k]);
            }
        }
    }
}

/// Adjacency is symmetric: when `b` neighbors `a`, `a` neighbors `b`.
pub proof fn lemma_adj_symmetric(bonds: Seq<BondV>, a: int, b: int)
    requires
        spec_adj(bonds, a).contains(b),
    ensures
        spec_adj(bonds, b).contains(a),
    decreases bonds.len(),
{
    if bonds.len() > 0 {
        let head = bonds[0];
        let taila = spec_adj(bonds.drop_first(), a);
        let tailb = spec_adj(bonds.drop_first(), b);
        if head.a1 == a && head.a2 == b {
            assert(spec_adj(bonds, b)[0] == a);
        } else if head.a2 == a && head.a1 == b {
            assert(spec_adj(bonds, b)[0] == a);
        } else {
            if head.a1 == a || head.a2 == a {
                assert(spec_adj(bonds, a)[0] != b);
                assert(spec_adj(bonds, a).drop_first() =~= taila);
                assert(taila.contains(b));
            } else {
                assert(taila.contains(b));
            }
            lemma_adj_symmetric(bonds.drop_first(), a, b);
            let k = choose|k: int| 0 <= k < tailb.len() && tailb[k] == a;
            if head.a1 == b || head.a2 == b {
                assert(spec_adj(bonds, b)[k + 1] == a);
            } else {
                assert(spec_adj(bonds, b) == tailb);
            }
        }
    }
}

/// All atom ids connected to `ref_id` by a bond, in bond-list order.
pub fn get_adj_atoms_id(mol2: &MOL2, ref_id: usize) -> (r: Vec<usize>)
    ensures
        r@.map_values(|u: usize| u as int) == spec_adj(mol2@.bonds, ref_id as int),
{
    let n = mol2.bonds.len();
    let mut r: Vec<usize> = Vec::new();
    let mut i: usize = 0;
    proof {
        assert(mol2@.bonds.skip(0) =~= mol2@.bonds);
        assert(r@.map_values(|u: usize| u as int) + spec_adj(mol2@.bonds.skip(0), ref_id as int)
            =~= spec_adj(mol2@.bonds, ref_id as int));
    }
    while i < n
        invariant
            0 <= i <= n,
            n == mol2.bonds.len(),
            spec_adj(mol2@.bonds, ref_id as int) == r@.map_values(|u: usize| u as int) + spec_adj(
                mol2@.bonds.skip(i as int),
                ref_id as int,
            ),
        decreases n - i,
    {
        let b = &mol2.bonds[i];
        proof {
            assert(mol2@.bonds.skip(i as int)[0] == mol2@.bonds[i as int]);
            assert(mol2@.bonds.skip(i as int).drop_first() =~= mol2@.bonds.skip(i + 1));
        }
        if b.a1 == ref_id {
            proof {
                assert((r@ + seq![b.a2]).map_values(|u: usize| u as int) =~= r@.map_values(
                    |u: usize| u as int,
                ) + seq![b.a2 as int]);
            }
            r.push(b.a2);
        } else if b.a2 == ref_id {
            proof {
                assert((r@ + seq![b.a1]).map_values(|u: usize| u as int) =~= r@.map_values(
                    |u: usize| u as int,
                ) + seq![b.a1 as int]);
            }
            r.push(b.a1);
        }
        proof {
            assert(spec_adj(mol2@.bonds, ref_id as int) =~= r@.map_values(|u: usize| u as int)
                + spec_adj(mol2@.bonds.skip(i + 1), ref_id as int));
        }
        i = i + 1;
    }
    proof {
        assert(mol2@.bonds.skip(n as int) =~= Seq::<BondV>::empty());
        assert(r@.map_values(|u: usize| u as int) =~= spec_adj(mol2@.bonds, ref_id as int));
    }
    r
}

/// Whether an element field names hydrogen.
pub open spec fn is_h_elem(e: Seq<char>) -> bool {
    e == "H"@
}

/// The ids among `ids` whose atom's element satisfies the filter:
/// hydrogen when `want_h`, heavy otherwise. Order is preserved.
pub open spec fn spec_filter_elem(atoms: Seq<AtomV>, ids: Seq<int>, want_h: bool) -> Seq<int>
    decreases ids.len(),
{
    if ids.len() == 0 {
        Seq::empty()
    } else {
        let tail = spec_filter_elem(atoms, ids.drop_first(), want_h);
        if 1 <= ids[0] <= atoms.len() && is_h_elem(atoms[ids[0] - 1].element) == want_h {
            seq![ids[0]] + tail
        } else {
            tail
        }
    }
}

/// A filtered list selects from existing atoms only.
pub proof fn lemma_filter_elem_in_range(atoms: Seq<AtomV>, ids: Seq<int>, want_h: bool)
    ensures
        forall|k: int|
            0 <= k < spec_filter_elem(atoms, ids, want_h).len() ==> 1 <= #[trigger] spec_filter_elem(
                atoms,
                ids,
                want_h,
            )[k] <= atoms.len(),
    decreases ids.len(),
{
    if ids.len() > 0 {
        lemma_filter_elem_in_range(atoms, ids.drop_first(), want_h);
        let s = spec_filter_elem(atoms, ids, want_h);
        let tail = spec_filter_elem(atoms, ids.drop_first(), want_h);
        assert forall|k: int| 0 <= k < s.len() implies 1 <= #[trigger] s[k] <= atoms.len() by {
            if 1 <= ids[0] <= atoms.len() && is_h_elem(atoms[ids[0] - 1].element) == want_h {
                if k > 0 {
                    assert(s[k] == tail[k - 1]);
                }
            } else {
                assert(s[k] == tail[k]);
            }
        }
    }
}

fn filter_elem(mol2: &MOL2, atoms_id: &Vec<usize>, want_h: bool) -> (r: Vec<usize>)
    requires
        forall|k: int|
            0 <= k < atoms_id@.len() ==> 1 <= (#[trigger] atoms_id@[k]) as int <= mol2@.atoms.len(),
    ensures
        r@.map_values(|u: usize| u as int) == spec_filter_elem(
            mol2@.atoms,
            atoms_id@.map_values(|u: usize| u as int),
            want_h,
        ),
{
    let n = atoms_id.len();
    let ghost gids = atoms_id@.map_values(|u: usize| u as int);
    let mut r: Vec<usize> = Vec::new();
    let mut i: usize = 0;
    proof {
        assert(gids.skip(0) =~= gids);
        assert(r@.map_values(|u: usize| u as int) + spec_filter_elem(
            mol2@.atoms,
            gids.skip(0),
            want_h,
        ) =~= spec_filter_elem(mol2@.atoms, gids, want_h));
    }
    while i < n
        invariant
            0 <= i <= n,
            n == atoms_id@.len(),
            gids == atoms_id@.map_values(|u: usize| u as int),
            forall|k: int|
                0 <= k < atoms_id@.len() ==> 1 <= (#[trigger] atoms_id@[k]) as int
                    <= mol2@.atoms.len(),
            spec_filter_elem(mol2@.atoms, gids, want_h) == r@.map_values(|u: usize| u as int)
                + spec_filter_elem(mol2@.atoms, gids.skip(i as int), want_h),
        decreases n - i,
    {
        let a = atoms_id[i];
        proof {
            assert(gids.skip(i as int)[0] == gids[i as int]);
            assert(gids.skip(i as int).drop_first() =~= gids.skip(i + 1));
        }
        let is_h = str_eq(mol2.atoms[a - 1].element.as_str(), "H");
        proof {
            assert(mol2@.atoms[a - 1] == mol2.atoms@[a - 1]@);
            assert(is_h == is_h_elem(mol2@.atoms[a - 1].element));
        }
        if is_h == want_h {
            proof {
                assert((r@ + seq![a]).map_values(|u: usize| u as int) =~= r@.map_values(
                    |u: usize| u as int,
                ) + seq![a as int]);
            }
            r.push(a);
        }
        proof {
            assert(spec_filter_elem(mol2@.atoms, gids, want_h) =~= r@.map_values(
                |u: usize| u as int,
            ) + spec_filter_elem(mol2@.atoms, gids.skip(i + 1), want_h));
        }
        i = i + 1;
    }
    proof {
        assert(gids.skip(n as int) =~= Seq::<int>::empty());
        assert(r@.map_values(|u: usize| u as int) =~= spec_filter_elem(mol2@.atoms, gids, want_h));
    }
    r
}

/// The hydrogen neighbors of an atom, in bond-list order.
pub open spec fn spec_adj_h(m: MOL2V, id: int) -> Seq<int> {
    spec_filter_elem(m.atoms, spec_adj(m.bonds, id), true)
}

/// The heavy neighbors of an atom, in bond-list order.
pub open spec fn spec_adj_heavy(m: MOL2V, id: int) -> Seq<int> {
    spec_filter_elem(m.atoms, spec_adj(m.bonds, id), false)
}

/// The pattern of the atom: classification of its total degree and its
/// hydrogen-neighbor count against the lookup table.
pub open spec fn spec_htype(m: MOL2V, id: int) -> int {
    spec_classify(spec_adj(m.bonds, id).len(), spec_adj_h(m, id).len())
}

/// The ids of the hydrogen atoms bonded to `ref_id`.
pub fn get_adj_h_id(mol2: &MOL2, ref_id: usize) -> (r: Vec<usize>)
    requires
        mol2@.wf(),
    ensures
        r@.map_values(|u: usize| u as int) == spec_adj_h(mol2@, ref_id as int),
{
    let adj = get_adj_atoms_id(mol2, ref_id);
    proof {
        lemma_adj_in_range(mol2@.bonds, ref_id as int, mol2@.atoms.len() as int);
        assert(forall|k: int|
            0 <= k < adj@.len() ==> (#[trigger] adj@[k]) as int == spec_adj(
                mol2@.bonds,
                ref_id as int,
            )[k]);
    }
    filter_elem(mol2, &adj, true)
}

/// The ids of the heavy atoms bonded to `ref_id`.
pub fn get_adj_heavy_id(mol2: &MOL2, ref_id: usize) -> (r: Vec<usize>)
    requires
        mol2@.wf(),
    ensures
        r@.map_values(|u: usize| u as int) == spec_adj_heavy(mol2@, ref_id as int),
{
    let adj = get_adj_atoms_id(mol2, ref_id);
    proof {
        lemma_adj_in_range(mol2@.bonds, ref_id as int, mol2@.atoms.len() as int);
        assert(forall|k: int|
            0 <= k < adj@.len() ==> (#[trigger] adj@[k]) as int == spec_adj(
                mol2@.bonds,
                ref_id as int,
            )[k]);
    }
    filter_elem(mol2, &adj, false)
}

/// Classifies the hydrogens attached to the given heavy atom from its
/// local connectivity, by the lookup table; 0 means unclassified.
pub fn get_htype_from_heavy_atom(mol2: &MOL2, ref_id: usize) -> (r: i32)
    requires
        mol2@.wf(),
    ensures
        r as int == spec_htype(mol2@, ref_id as int),
{
    let adj = get_adj_atoms_id(mol2, ref_id);
    proof {
        lemma_adj_in_range(mol2@.bonds, ref_id as int, mol2@.atoms.len() as int);
        assert(forall|k: int|
            0 <= k < adj@.len() ==> (#[trigger] adj@[k]) as int == spec_adj(
                mol2@.bonds,
                ref_id as int,
            )[k]);
    }
    let adj_h = filter_elem(mol2, &adj, true);
    let d = adj.len();
    let n = adj_h.len();
    proof {
        assert(d == spec_adj(mol2@.bonds, ref_id as int).len());
        assert(n == spec_adj_h(mol2@, ref_id as int).len());
    }
    if d == 3 && n == 1 {
        1
    } else if d == 2 && n == 1 {
        2
    } else if d == 3 && n == 2 {
        3
    } else if d == 4 && n == 3 {
        4
    } else if d == 4 && n == 1 {
        5
    } else if d == 4 && n == 2 {
        6
    } else {
        0
    }
}

/// One line of the hydrogen-reconstruction table: how many hydrogens the
/// record describes, their pattern, the canonical hydrogen name, and the
/// support atoms that frame the reconstruction.
pub struct HDBItem {
    pub h_num: i32,
    pub h_type: i32,
    pub h_atom: String,
    pub heavy_atoms: Vec<String>,
}

pub ghost struct HDBItemV {
    pub h_num: int,
    pub h_type: int,
    pub h_atom: Seq<char>,
    pub heavy_atoms: Seq<Seq<char>>,
}

impl View for HDBItem {
    type V = HDBItemV;

    open spec fn view(&self) -> HDBItemV {
        HDBItemV {
            h_num: self.h_num as int,
            h_type: self.h_type as int,
            h_atom: self.h_atom@,
            heavy_atoms: self.heavy_atoms@.map_values(|s: String| s@),
        }
    }
}

impl HDBItem {
    pub fn new(h_num: i32, h_type: i32, h_atom: String, heavy_atoms: Vec<String>) -> (r: HDBItem)
        ensures
            r@.h_num == h_num as int,
            r@.h_type == h_type as int,
            r@.h_atom == h_atom@,
            r@.heavy_atoms == heavy_atoms@.map_values(|s: String| s@),
    {
        HDBItem { h_num, h_type, h_atom, heavy_atoms }
    }
}


/// Filtering keeps every id that lies in the list, references an
/// existing atom, and matches the element filter.
pub proof fn lemma_filter_elem_contains(atoms: Seq<AtomV>, ids: Seq<int>, want_h: bool, x: int)
    requires
        ids.contains(x),
        1 <= x <= atoms.len(),
        is_h_elem(atoms[x - 1].element) == want_h,
    ensures
        spec_filter_elem(atoms, ids, want_h).contains(x),
    decreases ids.len(),
{
    let s = spec_filter_elem(atoms, ids, want_h);
    let tail = spec_filter_elem(atoms, ids.drop_first(), want_h);
    if ids[0] == x {
        assert(s[0] == x);
    } else {
        assert(ids.drop_first().contains(x)) by {
            let k = choose|k: int| 0 <= k < ids.len() && ids[k] == x;
            assert(ids.drop_first()[k - 1] == x);
        }
        lemma_filter_elem_contains(atoms, ids.drop_first(), want_h, x);
        let k = choose|k: int| 0 <= k < tail.len() && tail[k] == x;
        if 1 <= ids[0] <= atoms.len() && is_h_elem(atoms[ids[0] - 1].element) == want_h {
            assert(s[k + 1] == x);
        } else {
            assert(s == tail);
        }
    }
}

/// Every id of a filtered list lies in the list, references an existing
/// atom, and matches the element filter.
pub proof fn lemma_filter_elem_subset(atoms: Seq<AtomV>, ids: Seq<int>, want_h: bool, x: int)
    requires
        spec_filter_elem(atoms, ids, want_h).contains(x),
    ensures
        ids.contains(x),
        1 <= x <= atoms.len(),
        is_h_elem(atoms[x - 1].element) == want_h,
    decreases ids.len(),
{
    let s = spec_filter_elem(atoms, ids, want_h);
    let tail = spec_filter_elem(atoms, ids.drop_first(), want_h);
    if ids.len() > 0 {
        if 1 <= ids[0] <= atoms.len() && is_h_elem(atoms[ids[0] - 1].element) == want_h && x
            == ids[0] {
            assert(ids.contains(x)) by {
                assert(ids[0] == x);
            }
        } else {
            assert(tail.contains(x)) by {
                let k = choose|k: int| 0 <= k < s.len() && s[k] == x;
                if 1 <= ids[0] <= atoms.len() && is_h_elem(atoms[ids[0] - 1].element) == want_h {
                    assert(s[k] == (seq![ids[0]] + tail)[k]);
                    assert(k > 0);
                    assert(tail[k - 1] == x);
                } else {
                    assert(s == tail);
                }
            }
            lemma_filter_elem_subset(atoms, ids.drop_first(), want_h, x);
            let k = choose|k: int| 0 <= k < ids.drop_first().len() && ids.drop_first()[k] == x;
            assert(ids[k + 1] == x);
        }
    }
}

/// Index of the first occurrence of `x`, or -1.
pub open spec fn first_index_of(s: Seq<int>, x: int) -> int
    decreases s.len(),
{
    if s.len() == 0 {
        -1
    } else if s[0] == x {
        0
    } else {
        let r = first_index_of(s.drop_first(), x);
        if r < 0 {
            -1
        } else {
            r + 1
        }
    }
}

pub proof fn lemma_first_index_of_props(s: Seq<int>, x: int)
    ensures
        first_index_of(s, x) == -1 ==> forall|i: int| 0 <= i < s.len() ==> s[i] != x,
        first_index_of(s, x) != -1 ==> {
            let r = first_index_of(s, x);
            &&& 0 <= r < s.len()
            &&& s[r] == x
            &&& forall|i: int| 0 <= i < r ==> s[i] != x
        },
    decreases s.len(),
{
    if s.len() > 0 && s[0] != x {
        lemma_first_index_of_props(s.drop_first(), x);
        assert(forall|i: int| 1 <= i < s.len() ==> (#[trigger] s[i]) == s.drop_first()[i - 1]);
    }
}

/// Finds the first position of `x` in the id list.
fn first_index_of_exec(v: &Vec<usize>, x: usize) -> (r: Option<usize>)
    ensures
        match r {
            Some(i) => first_index_of(v@.map_values(|u: usize| u as int), x as int) == i as int,
            None => first_index_of(v@.map_values(|u: usize| u as int), x as int) == -1,
        },
{
    let n = v.len();
    let ghost m = v@.map_values(|u: usize| u as int);
    let mut i: usize = 0;
    while i < n
        invariant
            0 <= i <= n,
            n == v@.len(),
            m == v@.map_values(|u: usize| u as int),
            forall|j: int| 0 <= j < i ==> (#[trigger] m[j]) != x as int,
        decreases n - i,
    {
        if v[i] == x {
            proof {
                lemma_first_index_of_props(m, x as int);
                assert(m[i as int] == x as int);
            }
            return Some(i);
        }
        proof {
            assert(m[i as int] != x as int);
        }
        i = i + 1;
    }
    proof {
        lemma_first_index_of_props(m, x as int);
    }
    None
}

/// The name fragment after the element prefix: the atom name with its
/// first `elen` characters removed, or empty when the name is shorter.
pub open spec fn strip_elem_prefix(name: Seq<char>, elen: int) -> Seq<char> {
    if 0 <= elen <= name.len() {
        name.skip(elen)
    } else {
        Seq::empty()
    }
}

/// The canonical base name of a hydrogen: "H" followed by its first
/// heavy neighbor's name with that neighbor's element prefix stripped.
pub open spec fn spec_hbasename(m: MOL2V, h_id: int) -> Seq<char>
    recommends
        spec_adj_heavy(m, h_id).len() > 0,
{
    let heavy = m.atoms[spec_adj_heavy(m, h_id)[0] - 1];
    seq!['H'] + strip_elem_prefix(heavy.atom_name, heavy.element.len() as int)
}

impl MOL2 {
    /// The canonical base name for the hydrogen `h`.
    pub fn get_hbasename(&self, h: &Atom) -> (r: String)
        requires
            self@.wf(),
            spec_adj_heavy(self@, h.atom_id as int).len() > 0,
        ensures
            r@ == spec_hbasename(self@, h.atom_id as int),
    {
        let heavy_ids = get_adj_heavy_id(self, h.atom_id);
        proof {
            lemma_filter_elem_in_range(
                self@.atoms,
                spec_adj(self@.bonds, h.atom_id as int),
                false,
            );
            assert(heavy_ids@[0] as int == spec_adj_heavy(self@, h.atom_id as int)[0]);
        }
        let heavy = &self.atoms[heavy_ids[0] - 1];
        let elen = heavy.element.unicode_len();
        let nlen = heavy.atom_name.unicode_len();
        let stripped: &str = if elen <= nlen {
            heavy.atom_name.as_str().substring_char(elen, nlen)
        } else {
            ""
        };
        proof {
            reveal_strlit("");
            reveal_strlit("H");
            assert(stripped@ =~= strip_elem_prefix(heavy@.atom_name, heavy@.element.len() as int));
            assert("H"@ =~= seq!['H']);
        }
        let r = String::from_str("H").concat(stripped);
        proof {
            assert(self@.atoms[spec_adj_heavy(self@, h.atom_id as int)[0] - 1] == heavy@);
        }
        r
    }
}


/// The names generated for the `n` hydrogens of one heavy atom: the base
/// name alone when there is one hydrogen, the base name followed by each
/// one-based position otherwise.
pub open spec fn spec_h_names(base: Seq<char>, n: nat) -> Seq<Seq<char>> {
    if n == 1 {
        seq![base]
    } else {
        Seq::new(n, |k: int| base + spec_dec((k + 1) as nat))
    }
}

/// The generated hydrogen names are pairwise distinct.
pub proof fn lemma_h_names_distinct(base: Seq<char>, n: nat)
    ensures
        spec_h_names(base, n).len() == n,
        forall|i: int, j: int|
            0 <= i < j < spec_h_names(base, n).len() ==> #[trigger] spec_h_names(base, n)[i]
                != #[trigger] spec_h_names(base, n)[j],
{
    if n != 1 {
        let names = spec_h_names(base, n);
        assert forall|i: int, j: int|
            0 <= i < j < names.len() implies #[trigger] names[i] != #[trigger] names[j] by {
            if names[i] == names[j] {
                lemma_concat_cancel_left(base, spec_dec((i + 1) as nat), spec_dec((j + 1) as nat));
                lemma_dec_injective((i + 1) as nat, (j + 1) as nat);
            }
        }
    }
}

/// The smallest atom index at or after `from` whose atom is heavy and
/// lists `h_id` among its hydrogen neighbors.
pub open spec fn first_namer(m: MOL2V, h_id: int, from: int) -> Option<int>
    decreases m.atoms.len() - from,
{
    if !(0 <= from < m.atoms.len()) {
        None
    } else if !is_h_elem(m.atoms[from].element) && spec_adj_h(m, from + 1).contains(h_id) {
        Some(from)
    } else {
        first_namer(m, h_id, from + 1)
    }
}

proof fn lemma_first_namer_from(m: MOL2V, h_id: int, from: int, k: int)
    requires
        0 <= from <= k < m.atoms.len(),
        !is_h_elem(m.atoms[k].element),
        spec_adj_h(m, k + 1).contains(h_id),
        forall|j: int|
            from <= j < k ==> is_h_elem((#[trigger] m.atoms[j]).element) || !spec_adj_h(
                m,
                j + 1,
            ).contains(h_id),
    ensures
        first_namer(m, h_id, from) == Some(k),
    decreases k - from,
{
    if from < k {
        lemma_first_namer_from(m, h_id, from + 1, k);
    }
}

proof fn lemma_first_namer_none(m: MOL2V, h_id: int, from: int)
    requires
        from >= 0,
        forall|j: int|
            from <= j < m.atoms.len() ==> is_h_elem((#[trigger] m.atoms[j]).element) || !spec_adj_h(
                m,
                j + 1,
            ).contains(h_id),
    ensures
        first_namer(m, h_id, from) is None,
    decreases m.atoms.len() - from,
{
    if from < m.atoms.len() {
        lemma_first_namer_none(m, h_id, from + 1);
    }
}

/// The name a hydrogen receives in the renaming pass. It is assigned by
/// the first heavy atom that lists the hydrogen and is not revisited;
/// an atom that is not a hydrogen, or that no heavy atom lists, keeps
/// its name.
pub open spec fn spec_h_new_name(m: MOL2V, h_id: int) -> Seq<char>
    recommends
        1 <= h_id <= m.atoms.len(),
{
    let old_name = m.atoms[h_id - 1].atom_name;
    if !is_h_elem(m.atoms[h_id - 1].element) {
        old_name
    } else {
        match first_namer(m, h_id, 0) {
            None => old_name,
            Some(k) => {
                let hs = spec_adj_h(m, k + 1);
                let p = first_index_of(hs, h_id);
                let base = spec_hbasename(m, h_id);
                if hs.len() == 1 {
                    base
                } else {
                    base + spec_dec((p + 1) as nat)
                }
            },
        }
    }
}

/// The atom list after the hydrogen renaming pass: every hydrogen
/// carries its new name, everything else is unchanged.
pub open spec fn spec_rename_h_atoms(m: MOL2V) -> Seq<AtomV> {
    Seq::new(
        m.atoms.len(),
        |k: int| AtomV { atom_name: spec_h_new_name(m, k + 1), ..m.atoms[k] },
    )
}

impl MOL2 {
    /// Finds the first heavy atom whose hydrogen neighbors include the
    /// given atom.
    fn find_namer(&self, h_id: usize) -> (r: Option<usize>)
        requires
            self@.wf(),
        ensures
            match r {
                Some(k) => first_namer(self@, h_id as int, 0) == Some(k as int) && (k as int)
                    < self@.atoms.len() && !is_h_elem(self@.atoms[k as int].element) && spec_adj_h(
                    self@,
                    k as int + 1,
                ).contains(h_id as int),
                None => first_namer(self@, h_id as int, 0) is None,
            },
    {
        let n = self.atoms.len();
        let mut k: usize = 0;
        while k < n
            invariant
                0 <= k <= n,
                n == self@.atoms.len(),
                self@.wf(),
                forall|j: int|
                    0 <= j < k ==> is_h_elem((#[trigger] self@.atoms[j]).element) || !spec_adj_h(
                        self@,
                        j + 1,
                    ).contains(h_id as int),
            decreases n - k,
        {
            let heavy = !str_eq(self.atoms[k].element.as_str(), "H");
            proof {
                assert(self@.atoms[k as int] == self.atoms@[k as int]@);
            }
            if heavy {
                let hs = get_adj_h_id(self, k + 1);
                let found = crate::text::contains_id(&hs, h_id);
                proof {
                    let ghost gh = hs@.map_values(|u: usize| u as int);
                    if found {
                        let i = choose|i: int| 0 <= i < hs@.len() && hs@[i] == h_id;
                        assert(gh[i] == h_id as int);
                        assert(spec_adj_h(self@, k as int + 1).contains(h_id as int));
                    } else {
                        if spec_adj_h(self@, k as int + 1).contains(h_id as int) {
                            let i = choose|i: int| 0 <= i < gh.len() && gh[i] == h_id as int;
                            assert(hs@[i] as int == h_id as int);
                            assert(hs@[i] == h_id);
                            assert(false);
                        }
                    }
                }
                if found {
                    proof {
                        lemma_first_namer_from(self@, h_id as int, 0, k as int);
                    }
                    return Some(k);
                }
            }
            k = k + 1;
        }
        proof {
            lemma_first_namer_none(self@, h_id as int, 0);
        }
        None
    }

    /// Renames every hydrogen from its geometric neighborhood: the base
    /// name alone when it is its heavy atom's only hydrogen, the base
    /// name suffixed with its one-based position in bond-list order
    /// otherwise. Once a hydrogen's name is assigned by the first heavy
    /// atom that lists it, it is not revisited. Everything else in the
    /// graph is unchanged.
    #[verifier::loop_isolation(false)]
    pub fn rename_hydrogens(&mut self)
        requires
            old(self)@.wf(),
        ensures
            final(self)@.mol == old(self)@.mol,
            final(self)@.bonds == old(self)@.bonds,
            final(self)@.atoms == spec_rename_h_atoms(old(self)@),
            final(self)@.wf(),
    {
        let ghost m0 = self@;
        let n = self.atoms.len();
        let mut new_names: Vec<String> = Vec::new();
        let mut h: usize = 0;
        while h < n
            invariant
                0 <= h <= n,
                new_names@.len() == h,
                forall|j: int|
                    0 <= j < h ==> (#[trigger] new_names@[j])@ == spec_h_new_name(m0, j + 1),
            decreases n - h,
        {
            let is_h = str_eq(self.atoms[h].element.as_str(), "H");
            proof {
                assert(m0.atoms[h as int] == self.atoms@[h as int]@);
            }
            if !is_h {
                new_names.push(self.atoms[h].atom_name.clone());
            } else {
                match self.find_namer(h + 1) {
                    None => {
                        new_names.push(self.atoms[h].atom_name.clone());
                    },
                    Some(k) => {
                        let hs = get_adj_h_id(self, k + 1);
                        proof {
                            lemma_filter_elem_subset(
                                m0.atoms,
                                spec_adj(m0.bonds, k as int + 1),
                                true,
                                h as int + 1,
                            );
                            lemma_adj_symmetric(m0.bonds, k as int + 1, h as int + 1);
                            lemma_filter_elem_contains(
                                m0.atoms,
                                spec_adj(m0.bonds, h as int + 1),
                                false,
                                k as int + 1,
                            );
                            assert(spec_adj_heavy(m0, h as int + 1).len() > 0);
                        }
                        let p = match first_index_of_exec(&hs, h + 1) {
                            Some(p) => {
                                proof {
                                    lemma_first_index_of_props(
                                        hs@.map_values(|u: usize| u as int),
                                        h as int + 1,
                                    );
                                }
                                p
                            },
                            None => {
                                proof {
                                    let gh = hs@.map_values(|u: usize| u as int);
                                    lemma_first_index_of_props(gh, h as int + 1);
                                    let i = choose|i: int|
                                        0 <= i < gh.len() && gh[i] == h as int + 1;
                                    assert(false);
                                }
                                0
                            },
                        };
                        let base = self.get_hbasename(&self.atoms[h]);
                        if hs.len() == 1 {
                            new_names.push(base);
                        } else {
                            let suffix = u64_to_string((p + 1) as u64);
                            let name = base.concat(suffix.as_str());
                            proof {
                                assert(name@ == spec_h_new_name(m0, h as int + 1));
                            }
                            new_names.push(name);
                        }
                    },
                }
            }
            h = h + 1;
        }
        let mut new_atoms: Vec<Atom> = Vec::new();
        let mut i: usize = 0;
        while i < n
            invariant
                0 <= i <= n,
                new_atoms@.len() == i,
                forall|j: int|
                    0 <= j < i ==> (#[trigger] new_atoms@[j])@ == (AtomV {
                        atom_name: spec_h_new_name(m0, j + 1),
                        ..m0.atoms[j]
                    }),
            decreases n - i,
        {
            let a = &self.atoms[i];
            proof {
                assert(m0.atoms[i as int] == self.atoms@[i as int]@);
            }
            new_atoms.push(
                Atom {
                    atom_id: a.atom_id,
                    atom_name: new_names[i].clone(),
                    x: a.x.clone(),
                    y: a.y.clone(),
                    z: a.z.clone(),
                    at: a.at.clone(),
                    atom_charge: a.atom_charge.clone(),
                    element: a.element.clone(),
                },
            );
            i = i + 1;
        }
        self.atoms = new_atoms;
        proof {
            assert(self@.atoms =~= spec_rename_h_atoms(m0));
            assert forall|k: int| 0 <= k < self@.atoms.len() implies (#[trigger] self@.atoms[k]).atom_id
                == k + 1 && self@.atoms[k].element == crate::mol2::element_of(
                self@.atoms[k].at,
            ) by {
                assert(self@.atoms[k] == spec_rename_h_atoms(m0)[k]);
            }
            assert(self@.wf());
        }
    }
}


/// Hydrogen-name uniqueness. For a heavy atom whose hydrogen neighbors
/// are pairwise distinct and each have it as their only heavy neighbor,
/// the renaming pass gives its `n` hydrogens exactly the generated
/// names: the base name alone for one hydrogen, the base name with each
/// one-based position otherwise; and those names are pairwise distinct.
pub proof fn lemma_hydrogen_names(m: MOL2V, k: int)
    requires
        m.wf(),
        0 <= k < m.atoms.len(),
        !is_h_elem(m.atoms[k].element),
        forall|p: int|
            0 <= p < spec_adj_h(m, k + 1).len() ==> spec_adj_heavy(
                m,
                #[trigger] spec_adj_h(m, k + 1)[p],
            ).len() == 1,
        forall|p: int, q: int|
            0 <= p < q < spec_adj_h(m, k + 1).len() ==> #[trigger] spec_adj_h(m, k + 1)[p]
                != #[trigger] spec_adj_h(m, k + 1)[q],
    ensures
        ({
            let hs = spec_adj_h(m, k + 1);
            let base = seq!['H'] + strip_elem_prefix(
                m.atoms[k].atom_name,
                m.atoms[k].element.len() as int,
            );
            &&& forall|p: int|
                0 <= p < hs.len() ==> spec_h_new_name(m, #[trigger] hs[p]) == spec_h_names(
                    base,
                    hs.len(),
                )[p]
            &&& forall|p: int, q: int|
                0 <= p < q < hs.len() ==> spec_h_new_name(m, #[trigger] hs[p]) != spec_h_new_name(
                    m,
                    #[trigger] hs[q],
                )
        }),
{
    let hs = spec_adj_h(m, k + 1);
    let base = seq!['H'] + strip_elem_prefix(
        m.atoms[k].atom_name,
        m.atoms[k].element.len() as int,
    );
    assert forall|p: int| 0 <= p < hs.len() implies spec_h_new_name(m, #[trigger] hs[p])
        == spec_h_names(base, hs.len())[p] by {
        let h = hs[p];
        assert(hs.contains(h));
        lemma_filter_elem_subset(m.atoms, spec_adj(m.bonds, k + 1), true, h);
        lemma_adj_symmetric(m.bonds, k + 1, h);
        lemma_filter_elem_contains(m.atoms, spec_adj(m.bonds, h), false, k + 1);
        let hv = spec_adj_heavy(m, h);
        assert(hv.len() == 1);
        let i = choose|i: int| 0 <= i < hv.len() && hv[i] == k + 1;
        assert(hv[0] == k + 1);
        assert(spec_hbasename(m, h) == base);
        assert forall|j: int|
            0 <= j < k implies is_h_elem((#[trigger] m.atoms[j]).element) || !spec_adj_h(
            m,
            j + 1,
        ).contains(h) by {
            if !is_h_elem(m.atoms[j].element) && spec_adj_h(m, j + 1).contains(h) {
                lemma_filter_elem_subset(m.atoms, spec_adj(m.bonds, j + 1), true, h);
                lemma_adj_symmetric(m.bonds, j + 1, h);
                lemma_filter_elem_contains(m.atoms, spec_adj(m.bonds, h), false, j + 1);
                let q = choose|q: int| 0 <= q < hv.len() && hv[q] == j + 1;
                assert(false);
            }
        }
        lemma_first_namer_from(m, h, 0, k);
        lemma_first_index_of_props(hs, h);
        let r = first_index_of(hs, h);
        assert(r != -1);
        assert(r == p) by {
            if r < p {
                assert(hs[r] == hs[p]);
            }
        }
        if hs.len() == 1 {
            assert(p == 0);
        }
    }
    lemma_h_names_distinct(base, hs.len());
}


/// The id list with every occurrence of `x` removed, order kept.
pub open spec fn remove_id(s: Seq<int>, x: int) -> Seq<int>
    decreases s.len(),
{
    if s.len() == 0 {
        Seq::empty()
    } else {
        let tail = remove_id(s.drop_first(), x);
        if s[0] == x {
            tail
        } else {
            seq![s[0]] + tail
        }
    }
}

pub proof fn lemma_remove_id_range(s: Seq<int>, x: int, n: int)
    requires
        forall|k: int| 0 <= k < s.len() ==> 1 <= #[trigger] s[k] <= n,
    ensures
        forall|k: int| 0 <= k < remove_id(s, x).len() ==> 1 <= #[trigger] remove_id(s, x)[k] <= n,
    decreases s.len(),
{
    if s.len() > 0 {
        lemma_remove_id_range(s.drop_first(), x, n);
        let r = remove_id(s, x);
        let tail = remove_id(s.drop_first(), x);
        assert forall|k: int| 0 <= k < r.len() implies 1 <= #[trigger] r[k] <= n by {
            if s[0] != x {
                if k > 0 {
                    assert(r[k] == tail[k - 1]);
                }
            } else {
                assert(r[k] == tail[k]);
            }
        }
    }
}

/// Removes every occurrence of `x` from the id list.
fn remove_id_exec(v: &Vec<usize>, x: usize) -> (r: Vec<usize>)
    ensures
        r@.map_values(|u: usize| u as int) == remove_id(v@.map_values(|u: usize| u as int), x as int),
{
    let n = v.len();
    let ghost g = v@.map_values(|u: usize| u as int);
    let mut r: Vec<usize> = Vec::new();
    let mut i: usize = 0;
    proof {
        assert(g.skip(0) =~= g);
        assert(r@.map_values(|u: usize| u as int) + remove_id(g.skip(0), x as int) =~= remove_id(
            g,
            x as int,
        ));
    }
    while i < n
        invariant
            0 <= i <= n,
            n == v@.len(),
            g == v@.map_values(|u: usize| u as int),
            remove_id(g, x as int) == r@.map_values(|u: usize| u as int) + remove_id(
                g.skip(i as int),
                x as int,
            ),
        decreases n - i,
    {
        proof {
            assert(g.skip(i as int)[0] == g[i as int]);
            assert(g.skip(i as int).drop_first() =~= g.skip(i + 1));
        }
        if v[i] != x {
            proof {
                assert((r@ + seq![v@[i as int]]).map_values(|u: usize| u as int) =~= r@.map_values(
                    |u: usize| u as int,
                ) + seq![g[i as int]]);
            }
            let e = v[i];
            r.push(e);
        }
        proof {
            assert(remove_id(g, x as int) =~= r@.map_values(|u: usize| u as int) + remove_id(
                g.skip(i + 1),
                x as int,
            ));
        }
        i = i + 1;
    }
    proof {
        assert(g.skip(n as int) =~= Seq::<int>::empty());
        assert(r@.map_values(|u: usize| u as int) =~= remove_id(g, x as int));
    }
    r
}

/// The record produced by the heavy atom at index `k` (id `k + 1`):
/// nothing when the atom has no hydrogens or is unclassified, the record
/// otherwise, or the atom's id when the pattern requires more heavy
/// neighbors than the graph provides.
pub open spec fn spec_hdb_item(m: MOL2V, k: int) -> Result<Option<HDBItemV>, int> {
    let id = k + 1;
    let hs = spec_adj_h(m, id);
    let heavies = spec_adj_heavy(m, id);
    let htype = spec_htype(m, id);
    if hs.len() == 0 || htype == 0 {
        Ok(None)
    } else {
        let base = spec_hbasename(m, hs[0]);
        let name_i = m.atoms[id - 1].atom_name;
        if htype == 1 {
            if heavies.len() >= 2 {
                Ok(
                    Some(
                        HDBItemV {
                            h_num: 1,
                            h_type: 1,
                            h_atom: base,
                            heavy_atoms: seq![
                                name_i,
                                m.atoms[heavies[0] - 1].atom_name,
                                m.atoms[heavies[1] - 1].atom_name,
                            ],
                        },
                    ),
                )
            } else {
                Err(id)
            }
        } else if htype == 2 || htype == 3 || htype == 4 {
            if heavies.len() >= 1 {
                let kk = remove_id(spec_adj_heavy(m, heavies[0]), id);
                if kk.len() >= 1 {
                    Ok(
                        Some(
                            HDBItemV {
                                h_num: spec_multiplicity(htype),
                                h_type: htype,
                                h_atom: base,
                                heavy_atoms: seq![
                                    name_i,
                                    m.atoms[heavies[0] - 1].atom_name,
                                    m.atoms[kk[0] - 1].atom_name,
                                ],
                            },
                        ),
                    )
                } else {
                    Err(id)
                }
            } else {
                Err(id)
            }
        } else if htype == 5 {
            if heavies.len() >= 3 {
                Ok(
                    Some(
                        HDBItemV {
                            h_num: 1,
                            h_type: 5,
                            h_atom: base,
                            heavy_atoms: seq![
                                name_i,
                                m.atoms[heavies[0] - 1].atom_name,
                                m.atoms[heavies[1] - 1].atom_name,
                                m.atoms[heavies[2] - 1].atom_name,
                            ],
                        },
                    ),
                )
            } else {
                Err(id)
            }
        } else {
            if heavies.len() >= 2 {
                Ok(
                    Some(
                        HDBItemV {
                            h_num: 2,
                            h_type: 6,
                            h_atom: base,
                            heavy_atoms: seq![
                                name_i,
                                m.atoms[heavies[0] - 1].atom_name,
                                m.atoms[heavies[1] - 1].atom_name,
                            ],
                        },
                    ),
                )
            } else {
                Err(id)
            }
        }
    }
}

/// The reconstruction records of all heavy atoms from index `k` on, in
/// atom order, skipping hydrogens and atoms of the boundary sets; the
/// first inconsistent atom aborts the table with its id.
pub open spec fn spec_hdb_items(m: MOL2V, exn: Seq<int>, exc: Seq<int>, k: int) -> Result<
    Seq<HDBItemV>,
    int,
>
    decreases m.atoms.len() - k,
{
    if !(0 <= k < m.atoms.len()) {
        Ok(Seq::empty())
    } else if is_h_elem(m.atoms[k].element) || exn.contains(k + 1) || exc.contains(k + 1) {
        spec_hdb_items(m, exn, exc, k + 1)
    } else {
        match spec_hdb_item(m, k) {
            Err(id) => Err(id),
            Ok(None) => spec_hdb_items(m, exn, exc, k + 1),
            Ok(Some(item)) => match spec_hdb_items(m, exn, exc, k + 1) {
                Err(e) => Err(e),
                Ok(items) => Ok(seq![item] + items),
            },
        }
    }
}

/// One line of the reconstruction table: multiplicity, pattern,
/// hydrogen name, support atom names.
pub open spec fn spec_hdb_line(it: HDBItemV) -> Seq<char> {
    join_sp(
        seq![spec_dec(it.h_num as nat), spec_dec(it.h_type as nat), it.h_atom] + it.heavy_atoms,
    )
}

/// The reconstruction table: a header with the residue name and the
/// record count, then one line per record.
pub open spec fn spec_hdb_content(sys_name: Seq<char>, items: Seq<HDBItemV>) -> Seq<char> {
    join_nl(
        seq![join_sp(seq![sys_name, spec_dec(items.len())])] + items.map_values(
            |it: HDBItemV| spec_hdb_line(it),
        ),
    )
}


impl MOL2 {
    /// Derives the hydrogen-reconstruction table. The boundary renaming
    /// pass is applied to the graph first; atoms of the boundary sets
    /// contribute no record; a heavy atom whose pattern requires more
    /// heavy neighbors than the graph provides aborts the run.
    #[verifier::loop_isolation(false)]
    #[verifier::rlimit(100)]
    pub fn to_hdb(
        &mut self,
        exclude_n: &Vec<usize>,
        exclude_c: &Vec<usize>,
        atom_n: Option<usize>,
        atom_c: Option<usize>,
        n_name: &Option<String>,
        c_name: &Option<String>,
        atom_adjn: Option<usize>,
        atom_adjc: Option<usize>,
        adjn_name: &Option<String>,
        adjc_name: &Option<String>,
    ) -> (r: Result<String, GenError>)
        requires
            old(self)@.wf(),
        ensures
            final(self)@.mol == old(self)@.mol,
            final(self)@.bonds == old(self)@.bonds,
            final(self)@.wf(),
            ({
                let b = crate::boundary::boundary_view(
                    exclude_n@,
                    exclude_c@,
                    atom_n,
                    atom_c,
                    *n_name,
                    *c_name,
                    atom_adjn,
                    atom_adjc,
                    *adjn_name,
                    *adjc_name,
                );
                if !b.valid() {
                    final(self)@ == old(self)@ && r == Err::<String, GenError>(
                        GenError::ConfigError,
                    )
                } else {
                    let m1 = MOL2V {
                        mol: old(self)@.mol,
                        atoms: crate::boundary::spec_rename_atoms(b, old(self)@.atoms),
                        bonds: old(self)@.bonds,
                    };
                    &&& final(self)@ == m1
                    &&& match spec_hdb_items(
                        m1,
                        exclude_n@.map_values(|u: usize| u as int),
                        exclude_c@.map_values(|u: usize| u as int),
                        0,
                    ) {
                        Ok(items) => r matches Ok(s) && s@ == spec_hdb_content(
                            old(self)@.mol.sys_name,
                            items,
                        ),
                        Err(id) => r == Err::<String, GenError>(
                            GenError::TopologyInconsistency { atom_id: id as usize },
                        ),
                    }
                }
            }),
    {
        let valid = crate::boundary::check_boundary(
            exclude_n,
            exclude_c,
            atom_n,
            atom_c,
            n_name,
            c_name,
            atom_adjn,
            atom_adjc,
            adjn_name,
            adjc_name,
        );
        if !valid {
            return Err(GenError::ConfigError);
        }
        let ghost m0 = self@;
        let ghost b = crate::boundary::boundary_view(
            exclude_n@,
            exclude_c@,
            atom_n,
            atom_c,
            *n_name,
            *c_name,
            atom_adjn,
            atom_adjc,
            *adjn_name,
            *adjc_name,
        );
        let n = self.atoms.len();
        let mut new_atoms: Vec<Atom> = Vec::new();
        let mut i: usize = 0;
        while i < n
            invariant
                0 <= i <= n,
                new_atoms@.len() == i,
                forall|j: int|
                    0 <= j < i ==> (#[trigger] new_atoms@[j])@ == (AtomV {
                        atom_name: crate::boundary::spec_boundary_name(
                            b,
                            m0.atoms[j].atom_id,
                            m0.atoms[j].atom_name,
                        ),
                        ..m0.atoms[j]
                    }),
            decreases n - i,
        {
            let a = &self.atoms[i];
            proof {
                assert(m0.atoms[i as int] == self.atoms@[i as int]@);
            }
            let name = crate::boundary::boundary_rename_name(
                exclude_n,
                exclude_c,
                atom_n,
                atom_c,
                n_name,
                c_name,
                atom_adjn,
                atom_adjc,
                adjn_name,
                adjc_name,
                a.atom_id,
                &a.atom_name,
            );
            new_atoms.push(
                Atom {
                    atom_id: a.atom_id,
                    atom_name: name,
                    x: a.x.clone(),
                    y: a.y.clone(),
                    z: a.z.clone(),
                    at: a.at.clone(),
                    atom_charge: a.atom_charge.clone(),
                    element: a.element.clone(),
                },
            );
            i = i + 1;
        }
        self.atoms = new_atoms;
        proof {
            assert(self@.atoms =~= crate::boundary::spec_rename_atoms(b, m0.atoms));
            assert forall|k: int|
                0 <= k < self@.atoms.len() implies (#[trigger] self@.atoms[k]).atom_id == k + 1
                && self@.atoms[k].element == crate::mol2::element_of(self@.atoms[k].at) by {
                assert(self@.atoms[k] == crate::boundary::spec_rename_atoms(b, m0.atoms)[k]);
            }
            assert(self@.wf());
        }
        let ghost m1 = self@;
        let ghost exn = exclude_n@.map_values(|u: usize| u as int);
        let ghost exc = exclude_c@.map_values(|u: usize| u as int);
        let mut items: Vec<HDBItem> = Vec::new();
        let mut k: usize = 0;
        while k < n
            invariant
                0 <= k <= n,
                n == self.atoms.len(),
                self@ == m1,
                spec_hdb_items(m1, exn, exc, 0) == (match spec_hdb_items(m1, exn, exc, k as int) {
                    Ok(rest) => Ok::<Seq<HDBItemV>, int>(
                        items@.map_values(|it: HDBItem| it@) + rest,
                    ),
                    Err(e) => Err::<Seq<HDBItemV>, int>(e),
                }),
                forall|j: int|
                    0 <= j < items@.len() ==> 1 <= (#[trigger] items@[j])@.h_num <= 3 && 1
                        <= items@[j]@.h_type <= 6,
            decreases n - k,
        {
            let a_id = self.atoms[k].atom_id;
            proof {
                assert(m1.atoms[k as int] == self.atoms@[k as int]@);
                assert(a_id == k + 1);
                crate::boundary::lemma_contains_int(exclude_n@, a_id);
                crate::boundary::lemma_contains_int(exclude_c@, a_id);
            }
            let is_h = str_eq(self.atoms[k].element.as_str(), "H");
            let skip = is_h || contains_id(exclude_n, a_id) || contains_id(exclude_c, a_id);
            if skip {
                proof {
                    assert(spec_hdb_items(m1, exn, exc, k as int) == spec_hdb_items(
                        m1,
                        exn,
                        exc,
                        k as int + 1,
                    ));
                }
            } else {
                let hs = get_adj_h_id(self, k + 1);
                if hs.len() == 0 {
                    proof {
                        assert(spec_adj_h(m1, k as int + 1).len() == 0);
                        assert(spec_hdb_item(m1, k as int) == Ok::<Option<HDBItemV>, int>(None));
                        assert(spec_hdb_items(m1, exn, exc, k as int) == spec_hdb_items(
                            m1,
                            exn,
                            exc,
                            k as int + 1,
                        ));
                    }
                } else {
                    let htype = get_htype_from_heavy_atom(self, k + 1);
                    if htype == 0 {
                        proof {
                            assert(spec_hdb_item(m1, k as int) == Ok::<Option<HDBItemV>, int>(
                                None,
                            ));
                            assert(spec_hdb_items(m1, exn, exc, k as int) == spec_hdb_items(
                                m1,
                                exn,
                                exc,
                                k as int + 1,
                            ));
                        }
                    } else {
                        proof {
                            lemma_filter_elem_in_range(
                                m1.atoms,
                                spec_adj(m1.bonds, k as int + 1),
                                true,
                            );
                            assert(hs@[0] as int == spec_adj_h(m1, k as int + 1)[0]);
                            assert(spec_adj_h(m1, k as int + 1).contains(hs@[0] as int)) by {
                                assert(spec_adj_h(m1, k as int + 1)[0] == hs@[0] as int);
                            }
                            lemma_filter_elem_subset(
                                m1.atoms,
                                spec_adj(m1.bonds, k as int + 1),
                                true,
                                hs@[0] as int,
                            );
                            lemma_adj_symmetric(m1.bonds, k as int + 1, hs@[0] as int);
                            lemma_filter_elem_contains(
                                m1.atoms,
                                spec_adj(m1.bonds, hs@[0] as int),
                                false,
                                k as int + 1,
                            );
                        }
                        let h0 = hs[0];
                        let base = self.get_hbasename(&self.atoms[h0 - 1]);
                        let heavies = get_adj_heavy_id(self, k + 1);
                        proof {
                            lemma_filter_elem_in_range(
                                m1.atoms,
                                spec_adj(m1.bonds, k as int + 1),
                                false,
                            );
                            assert(forall|j: int|
                                0 <= j < heavies@.len() ==> (#[trigger] heavies@[j]) as int
                                    == spec_adj_heavy(m1, k as int + 1)[j]);
                        }
                        let name_i = self.atoms[k].atom_name.clone();
                        let item: HDBItem;
                        if htype == 1 {
                            if heavies.len() < 2 {
                                return Err(GenError::TopologyInconsistency { atom_id: k + 1 });
                            }
                            let mut names: Vec<String> = Vec::new();
                            names.push(name_i);
                            names.push(self.atoms[heavies[0] - 1].atom_name.clone());
                            names.push(self.atoms[heavies[1] - 1].atom_name.clone());
                            item = HDBItem::new(1, 1, base, names);
                        } else if htype == 2 || htype == 3 || htype == 4 {
                            if heavies.len() < 1 {
                                return Err(GenError::TopologyInconsistency { atom_id: k + 1 });
                            }
                            let ks_all = get_adj_heavy_id(self, heavies[0]);
                            let ks = remove_id_exec(&ks_all, k + 1);
                            proof {
                                lemma_filter_elem_in_range(
                                    m1.atoms,
                                    spec_adj(m1.bonds, heavies@[0] as int),
                                    false,
                                );
                                assert(forall|j: int|
                                    0 <= j < ks_all@.len() ==> (#[trigger] ks_all@[j]) as int
                                        == spec_adj_heavy(m1, heavies@[0] as int)[j]);
                                assert(forall|j: int|
                                    0 <= j < ks_all@.len() ==> 1 <= (#[trigger] ks_all@[
                                    j]) as int <= m1.atoms.len());
                                lemma_remove_id_range(
                                    ks_all@.map_values(|u: usize| u as int),
                                    k as int + 1,
                                    m1.atoms.len() as int,
                                );
                                assert(forall|j: int|
                                    0 <= j < ks@.len() ==> (#[trigger] ks@[j]) as int == remove_id(
                                        ks_all@.map_values(|u: usize| u as int),
                                        k as int + 1,
                                    )[j]);
                            }
                            if ks.len() < 1 {
                                return Err(GenError::TopologyInconsistency { atom_id: k + 1 });
                            }
                            let mut names: Vec<String> = Vec::new();
                            names.push(name_i);
                            names.push(self.atoms[heavies[0] - 1].atom_name.clone());
                            names.push(self.atoms[ks[0] - 1].atom_name.clone());
                            let mult: i32 = if htype == 2 {
                                1
                            } else if htype == 3 {
                                2
                            } else {
                                3
                            };
                            item = HDBItem::new(mult, htype, base, names);
                        } else if htype == 5 {
                            if heavies.len() < 3 {
                                return Err(GenError::TopologyInconsistency { atom_id: k + 1 });
                            }
                            let mut names: Vec<String> = Vec::new();
                            names.push(name_i);
                            names.push(self.atoms[heavies[0] - 1].atom_name.clone());
                            names.push(self.atoms[heavies[1] - 1].atom_name.clone());
                            names.push(self.atoms[heavies[2] - 1].atom_name.clone());
                            item = HDBItem::new(1, 5, base, names);
                        } else {
                            if heavies.len() < 2 {
                                return Err(GenError::TopologyInconsistency { atom_id: k + 1 });
                            }
                            let mut names: Vec<String> = Vec::new();
                            names.push(name_i);
                            names.push(self.atoms[heavies[0] - 1].atom_name.clone());
                            names.push(self.atoms[heavies[1] - 1].atom_name.clone());
                            item = HDBItem::new(2, 6, base, names);
                        }
                        proof {
                            let spec_it = spec_hdb_item(m1, k as int);
                            assert(spec_it is Ok && spec_it->Ok_0 is Some);
                            assert(item@.heavy_atoms =~= spec_it->Ok_0->Some_0.heavy_atoms);
                            assert(item@ == spec_it->Ok_0->Some_0);
                            assert((items@ + seq![item]).map_values(|it: HDBItem| it@)
                                =~= items@.map_values(|it: HDBItem| it@) + seq![item@]);
                            assert(items@.map_values(|it: HDBItem| it@) + (seq![item@]
                                + spec_hdb_items(m1, exn, exc, k as int + 1)->Ok_0)
                                =~= (items@.map_values(|it: HDBItem| it@) + seq![item@])
                                + spec_hdb_items(m1, exn, exc, k as int + 1)->Ok_0);
                        }
                        proof {
                            assert(spec_hdb_items(m1, exn, exc, k as int) == (
                            match spec_hdb_items(m1, exn, exc, k as int + 1) {
                                Ok(rest) => Ok::<Seq<HDBItemV>, int>(seq![item@] + rest),
                                Err(e) => Err::<Seq<HDBItemV>, int>(e),
                            }));
                        }
                        let ghost prev_map = items@.map_values(|it: HDBItem| it@);
                        items.push(item);
                        proof {
                            assert(items@.map_values(|it: HDBItem| it@) =~= prev_map + seq![
                                item@,
                            ]);
                            if spec_hdb_items(m1, exn, exc, k as int + 1) is Ok {
                                let rest = spec_hdb_items(m1, exn, exc, k as int + 1)->Ok_0;
                                assert(prev_map + (seq![item@] + rest) =~= (prev_map + seq![
                                    item@,
                                ]) + rest);
                            }
                        }
                    }
                }
            }
            k = k + 1;
        }
        let count = items.len();
        let mut lines: Vec<String> = Vec::new();
        let mut header: Vec<String> = Vec::new();
        header.push(self.mol.sys_name.clone());
        header.push(u64_to_string(count as u64));
        proof {
            assert(header@.map_values(|t: String| t@) =~~= seq![
                m0.mol.sys_name,
                spec_dec(count as nat),
            ]);
        }
        lines.push(join_tokens(&header));
        let ghost gitems = items@.map_values(|it: HDBItem| it@);
        let mut j: usize = 0;
        while j < count
            invariant
                0 <= j <= count,
                count == items@.len(),
                gitems == items@.map_values(|it: HDBItem| it@),
                forall|q: int|
                    0 <= q < items@.len() ==> 1 <= (#[trigger] items@[q])@.h_num <= 3 && 1
                        <= items@[q]@.h_type <= 6,
                lines@.len() == 1 + j,
                lines@.map_values(|t: String| t@) =~= seq![
                    join_sp(seq![m0.mol.sys_name, spec_dec(count as nat)]),
                ] + gitems.map_values(|x: HDBItemV| spec_hdb_line(x)).take(j as int),
            decreases count - j,
        {
            let it = &items[j];
            let mut toks: Vec<String> = Vec::new();
            toks.push(u64_to_string(it.h_num as u64));
            toks.push(u64_to_string(it.h_type as u64));
            toks.push(it.h_atom.clone());
            proof {
                assert(toks@.map_values(|t: String| t@) =~~= seq![
                    spec_dec(it@.h_num as nat),
                    spec_dec(it@.h_type as nat),
                    it@.h_atom,
                ] + it@.heavy_atoms.take(0));
            }
            let hn = it.heavy_atoms.len();
            let mut q: usize = 0;
            while q < hn
                invariant
                    0 <= q <= hn,
                    hn == it.heavy_atoms@.len(),
                    it == items@[j as int],
                    0 <= j < items@.len(),
                    toks@.len() == 3 + q,
                    toks@.map_values(|t: String| t@) =~= seq![
                        spec_dec(it@.h_num as nat),
                        spec_dec(it@.h_type as nat),
                        it@.h_atom,
                    ] + it@.heavy_atoms.take(q as int),
                decreases hn - q,
            {
                let ha = it.heavy_atoms[q].clone();
                proof {
                    assert(it@.heavy_atoms.take(q as int).push(it@.heavy_atoms[q as int])
                        =~= it@.heavy_atoms.take(q as int + 1));
                    assert((toks@ + seq![ha]).map_values(|t: String| t@) =~= toks@.map_values(
                        |t: String| t@,
                    ) + seq![ha@]);
                    assert(toks@.map_values(|t: String| t@) + seq![ha@] =~= seq![
                        spec_dec(it@.h_num as nat),
                        spec_dec(it@.h_type as nat),
                        it@.h_atom,
                    ] + it@.heavy_atoms.take(q as int + 1));
                }
                toks.push(ha);
                q = q + 1;
            }
            proof {
                assert(it@.heavy_atoms.take(hn as int) =~= it@.heavy_atoms);
                assert(toks@.map_values(|t: String| t@) =~= seq![
                    spec_dec(it@.h_num as nat),
                    spec_dec(it@.h_type as nat),
                    it@.h_atom,
                ] + it@.heavy_atoms);
            }
            let line = join_tokens(&toks);
            proof {
                assert(line@ == spec_hdb_line(gitems[j as int]));
                assert(gitems.map_values(|x: HDBItemV| spec_hdb_line(x)).take(j as int + 1)
                    =~= gitems.map_values(|x: HDBItemV| spec_hdb_line(x)).take(j as int).push(
                    spec_hdb_line(gitems[j as int]),
                ));
                assert((lines@ + seq![line]).map_values(|t: String| t@) =~= lines@.map_values(
                    |t: String| t@,
                ) + seq![line@]);
                assert(lines@.map_values(|t: String| t@) + seq![line@] =~= seq![
                    join_sp(seq![m0.mol.sys_name, spec_dec(count as nat)]),
                ] + gitems.map_values(|x: HDBItemV| spec_hdb_line(x)).take(j as int + 1));
            }
            lines.push(line);
            j = j + 1;
        }
        proof {
            assert(gitems.map_values(|x: HDBItemV| spec_hdb_line(x)).take(count as int)
                =~= gitems.map_values(|x: HDBItemV| spec_hdb_line(x)));
            assert(lines@.map_values(|t: String| t@) =~= seq![
                join_sp(seq![m0.mol.sys_name, spec_dec(count as nat)]),
            ] + gitems.map_values(|x: HDBItemV| spec_hdb_line(x)));
            assert(spec_hdb_items(m1, exn, exc, n as int) == Ok::<Seq<HDBItemV>, int>(
                Seq::empty(),
            ));
            assert(spec_hdb_items(m1, exn, exc, 0) is Ok);
            assert(gitems + Seq::<HDBItemV>::empty() =~= gitems);
            assert(spec_hdb_items(m1, exn, exc, 0) == Ok::<Seq<HDBItemV>, int>(gitems));
        }
        let content = join_lines(&lines);
        Ok(content)
    }
}


/// Element filtering reads only the atoms' elements: two atom lists
/// that agree on elements filter any id list alike.
proof fn lemma_filter_elem_same(
    atoms1: Seq<AtomV>,
    atoms2: Seq<AtomV>,
    ids: Seq<int>,
    want_h: bool,
)
    requires
        atoms1.len() == atoms2.len(),
        forall|k: int|
            0 <= k < atoms1.len() ==> (#[trigger] atoms1[k]).element == atoms2[k].element,
    ensures
        spec_filter_elem(atoms1, ids, want_h) == spec_filter_elem(atoms2, ids, want_h),
    decreases ids.len(),
{
    if ids.len() > 0 {
        lemma_filter_elem_same(atoms1, atoms2, ids.drop_first(), want_h);
    }
}

proof fn lemma_first_namer_same(m1: MOL2V, m2: MOL2V, h_id: int, from: int)
    requires
        m1.bonds == m2.bonds,
        m1.atoms.len() == m2.atoms.len(),
        forall|k: int|
            0 <= k < m1.atoms.len() ==> (#[trigger] m1.atoms[k]).element == m2.atoms[k].element,
    ensures
        first_namer(m1, h_id, from) == first_namer(m2, h_id, from),
    decreases m1.atoms.len() - from,
{
    if 0 <= from < m1.atoms.len() {
        lemma_filter_elem_same(m1.atoms, m2.atoms, spec_adj(m1.bonds, from + 1), true);
        lemma_first_namer_same(m1, m2, h_id, from + 1);
    }
}

proof fn lemma_first_namer_some(m: MOL2V, h_id: int, from: int)
    ensures
        first_namer(m, h_id, from) matches Some(k) ==> from <= k < m.atoms.len() && !is_h_elem(
            m.atoms[k].element,
        ) && spec_adj_h(m, k + 1).contains(h_id),
    decreases m.atoms.len() - from,
{
    if 0 <= from < m.atoms.len() {
        lemma_first_namer_some(m, h_id, from + 1);
    }
}

/// Naming idempotence: applying the hydrogen renaming pass twice to the
/// same graph yields the same atom names as applying it once.
pub proof fn lemma_rename_hydrogens_idempotent(m: MOL2V)
    requires
        m.wf(),
    ensures
        ({
            let m1 = MOL2V { atoms: spec_rename_h_atoms(m), ..m };
            spec_rename_h_atoms(m1) == m1.atoms
        }),
{
    let m1 = MOL2V { atoms: spec_rename_h_atoms(m), ..m };
    assert(m1.atoms.len() == m.atoms.len());
    assert forall|k: int|
        0 <= k < m.atoms.len() implies (#[trigger] m1.atoms[k]).element == m.atoms[k].element
        && m1.atoms[k].atom_id == m.atoms[k].atom_id by {
        assert(m1.atoms[k] == spec_rename_h_atoms(m)[k]);
    }
    assert forall|k: int| 0 <= k < m1.atoms.len() implies #[trigger] spec_rename_h_atoms(m1)[k]
        == m1.atoms[k] by {
        let h = k + 1;
        assert(m1.atoms[k] == spec_rename_h_atoms(m)[k]);
        if is_h_elem(m1.atoms[k].element) {
            lemma_first_namer_same(m1, m, h, 0);
            match first_namer(m, h, 0) {
                None => {
                    assert(spec_h_new_name(m1, h) == m1.atoms[k].atom_name);
                },
                Some(kk) => {
                    // the namer's hydrogen list is the same in both graphs
                    lemma_filter_elem_same(m1.atoms, m.atoms, spec_adj(m.bonds, kk + 1), true);
                    assert(spec_adj_h(m1, kk + 1) == spec_adj_h(m, kk + 1));
                    // the base name reads the first heavy neighbor, whose
                    // name the pass leaves unchanged
                    lemma_filter_elem_same(m1.atoms, m.atoms, spec_adj(m.bonds, h), false);
                    assert(spec_adj_heavy(m1, h) == spec_adj_heavy(m, h));
                    lemma_first_namer_some(m, h, 0);
                    assert(0 <= kk < m.atoms.len() && !is_h_elem(m.atoms[kk].element)
                        && spec_adj_h(m, kk + 1).contains(h));
                    lemma_filter_elem_subset(m.atoms, spec_adj(m.bonds, kk + 1), true, h);
                    lemma_adj_symmetric(m.bonds, kk + 1, h);
                    lemma_filter_elem_contains(m.atoms, spec_adj(m.bonds, h), false, kk + 1);
                    let hv = spec_adj_heavy(m, h);
                    assert(hv.len() > 0);
                    lemma_filter_elem_in_range(m.atoms, spec_adj(m.bonds, h), false);
                    assert(hv.contains(hv[0]));
                    lemma_filter_elem_subset(m.atoms, spec_adj(m.bonds, h), false, hv[0]);
                    let heavy0 = hv[0];
                    assert(!is_h_elem(m.atoms[heavy0 - 1].element));
                    assert(m1.atoms[heavy0 - 1] == spec_rename_h_atoms(m)[heavy0 - 1]);
                    assert(spec_h_new_name(m, heavy0) == m.atoms[heavy0 - 1].atom_name);
                    assert(m1.atoms[heavy0 - 1].atom_name == m.atoms[heavy0 - 1].atom_name);
                    assert(spec_hbasename(m1, h) == spec_hbasename(m, h));
                    assert(spec_h_new_name(m1, h) == spec_h_new_name(m, h));
                },
            }
        } else {
            assert(spec_h_new_name(m1, h) == m1.atoms[k].atom_name);
        }
    }
    assert(spec_rename_h_atoms(m1) =~= m1.atoms);
}

} // verus!
