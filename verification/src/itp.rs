//! The bonded-topology model parsed from a topology file, and the
//! residue-boundary filter that adapts it into a single-residue
//! template: atom names are rewritten at the boundary and bonded terms
//! that belong to a neighboring residue are pruned. Numeric coefficients
//! are carried through as their original text fields.

use vstd::prelude::*;
use vstd::string::StrSliceExecFns;
use vstd::string::StringExecFns;

use crate::boundary::boundary_view;
use crate::boundary::spec_boundary_name;
use crate::error::GenError;
use crate::mol2::MOL2;
use crate::text::contains_id;
use crate::text::join_nl;
use crate::text::join_sp;
use crate::text::join_lines;
use crate::text::join_tokens;
use crate::text::spec_dec;
use crate::text::str_eq;
use crate::text::u64_to_string;
use crate::text::is_float_token;

verus! {

/// One entry of the atom-type table.
pub struct TopolAtomtype {
    pub name: String,
    pub mass: String,
    pub charge: String,
    pub ptype: String,
    pub sigma: String,
    pub epsilon: String,
}

pub ghost struct TopolAtomtypeV {
    pub name: Seq<char>,
    pub mass: Seq<char>,
    pub charge: Seq<char>,
    pub ptype: Seq<char>,
    pub sigma: Seq<char>,
    pub epsilon: Seq<char>,
}

impl View for TopolAtomtype {
    type V = TopolAtomtypeV;

    open spec fn view(&self) -> TopolAtomtypeV {
        TopolAtomtypeV {
            name: self.name@,
            mass: self.mass@,
            charge: self.charge@,
            ptype: self.ptype@,
            sigma: self.sigma@,
            epsilon: self.epsilon@,
        }
    }
}

/// One atom of the topology; its name is overwritten from the structure
/// file's graph when the topology is read.
pub struct TopolAtom {
    pub nr: usize,
    pub _type: String,
    pub resnr: String,
    pub resname: String,
    pub atom: String,
    pub cgnr: String,
    pub charge: String,
    pub mass: Option<String>,
}

pub ghost struct TopolAtomV {
    pub nr: int,
    pub _type: Seq<char>,
    pub resnr: Seq<char>,
    pub resname: Seq<char>,
    pub atom: Seq<char>,
    pub cgnr: Seq<char>,
    pub charge: Seq<char>,
    pub mass: Option<Seq<char>>,
}

impl View for TopolAtom {
    type V = TopolAtomV;

    open spec fn view(&self) -> TopolAtomV {
        TopolAtomV {
            nr: self.nr as int,
            _type: self._type@,
            resnr: self.resnr@,
            resname: self.resname@,
            atom: self.atom@,
            cgnr: self.cgnr@,
            charge: self.charge@,
            mass: match self.mass {
                Some(ref m) => Some(m@),
                None => None,
            },
        }
    }
}

pub struct TopolBond {
    pub ai: usize,
    pub aj: usize,
    pub funct: i32,
    pub c0: Option<String>,
    pub c1: Option<String>,
}

pub ghost struct TopolBondV {
    pub ai: int,
    pub aj: int,
    pub funct: int,
    pub c0: Option<Seq<char>>,
    pub c1: Option<Seq<char>>,
}

impl View for TopolBond {
    type V = TopolBondV;

    open spec fn view(&self) -> TopolBondV {
        TopolBondV {
            ai: self.ai as int,
            aj: self.aj as int,
            funct: self.funct as int,
            c0: match self.c0 {
                Some(ref c) => Some(c@),
                None => None,
            },
            c1: match self.c1 {
                Some(ref c) => Some(c@),
                None => None,
            },
        }
    }
}

pub struct TopolPair {
    pub ai: usize,
    pub aj: usize,
    pub funct: i32,
}

pub ghost struct TopolPairV {
    pub ai: int,
    pub aj: int,
    pub funct: int,
}

impl View for TopolPair {
    type V = TopolPairV;

    open spec fn view(&self) -> TopolPairV {
        TopolPairV { ai: self.ai as int, aj: self.aj as int, funct: self.funct as int }
    }
}

pub struct TopolConstraint {
    pub ai: usize,
    pub aj: usize,
    pub funct: i32,
    pub cs: Vec<String>,
}

pub ghost struct TopolConstraintV {
    pub ai: int,
    pub aj: int,
    pub funct: int,
    pub cs: Seq<Seq<char>>,
}

impl View for TopolConstraint {
    type V = TopolConstraintV;

    open spec fn view(&self) -> TopolConstraintV {
        TopolConstraintV {
            ai: self.ai as int,
            aj: self.aj as int,
            funct: self.funct as int,
            cs: self.cs@.map_values(|c: String| c@),
        }
    }
}

pub struct TopolAngle {
    pub ai: usize,
    pub aj: usize,
    pub ak: usize,
    pub funct: i32,
    pub c0: Option<String>,
    pub c1: Option<String>,
}

pub ghost struct TopolAngleV {
    pub ai: int,
    pub aj: int,
    pub ak: int,
    pub funct: int,
    pub c0: Option<Seq<char>>,
    pub c1: Option<Seq<char>>,
}

impl View for TopolAngle {
    type V = TopolAngleV;

    open spec fn view(&self) -> TopolAngleV {
        TopolAngleV {
            ai: self.ai as int,
            aj: self.aj as int,
            ak: self.ak as int,
            funct: self.funct as int,
            c0: match self.c0 {
                Some(ref c) => Some(c@),
                None => None,
            },
            c1: match self.c1 {
                Some(ref c) => Some(c@),
                None => None,
            },
        }
    }
}

pub struct TopolDihedral {
    pub ai: usize,
    pub aj: usize,
    pub ak: usize,
    pub al: usize,
    pub funct: i32,
    pub c0: Option<String>,
    pub c1: Option<String>,
    pub c2: Option<String>,
}

pub ghost struct TopolDihedralV {
    pub ai: int,
    pub aj: int,
    pub ak: int,
    pub al: int,
    pub funct: int,
    pub c0: Option<Seq<char>>,
    pub c1: Option<Seq<char>>,
    pub c2: Option<Seq<char>>,
}

impl View for TopolDihedral {
    type V = TopolDihedralV;

    open spec fn view(&self) -> TopolDihedralV {
        TopolDihedralV {
            ai: self.ai as int,
            aj: self.aj as int,
            ak: self.ak as int,
            al: self.al as int,
            funct: self.funct as int,
            c0: match self.c0 {
                Some(ref c) => Some(c@),
                None => None,
            },
            c1: match self.c1 {
                Some(ref c) => Some(c@),
                None => None,
            },
            c2: match self.c2 {
                Some(ref c) => Some(c@),
                None => None,
            },
        }
    }
}

pub struct TopolExclusion {
    pub ex_atoms: Vec<usize>,
}

pub ghost struct TopolExclusionV {
    pub ex_atoms: Seq<int>,
}

impl View for TopolExclusion {
    type V = TopolExclusionV;

    open spec fn view(&self) -> TopolExclusionV {
        TopolExclusionV { ex_atoms: self.ex_atoms@.map_values(|u: usize| u as int) }
    }
}

/// The whole topology model.
pub struct Topol {
    pub atomtypes: Vec<TopolAtomtype>,
    pub moleculetype: String,
    pub nrexcl: i32,
    pub atoms: Vec<TopolAtom>,
    pub bonds: Vec<TopolBond>,
    pub pairs: Vec<TopolPair>,
    pub constraints: Vec<TopolConstraint>,
    pub angles: Vec<TopolAngle>,
    pub dihedrals: Vec<TopolDihedral>,
    pub exclusions: Vec<TopolExclusion>,
}

pub ghost struct TopolV {
    pub atomtypes: Seq<TopolAtomtypeV>,
    pub moleculetype: Seq<char>,
    pub nrexcl: int,
    pub atoms: Seq<TopolAtomV>,
    pub bonds: Seq<TopolBondV>,
    pub pairs: Seq<TopolPairV>,
    pub constraints: Seq<TopolConstraintV>,
    pub angles: Seq<TopolAngleV>,
    pub dihedrals: Seq<TopolDihedralV>,
    pub exclusions: Seq<TopolExclusionV>,
}

impl View for Topol {
    type V = TopolV;

    open spec fn view(&self) -> TopolV {
        TopolV {
            atomtypes: self.atomtypes@.map_values(|a: TopolAtomtype| a@),
            moleculetype: self.moleculetype@,
            nrexcl: self.nrexcl as int,
            atoms: self.atoms@.map_values(|a: TopolAtom| a@),
            bonds: self.bonds@.map_values(|b: TopolBond| b@),
            pairs: self.pairs@.map_values(|p: TopolPair| p@),
            constraints: self.constraints@.map_values(|c: TopolConstraint| c@),
            angles: self.angles@.map_values(|a: TopolAngle| a@),
            dihedrals: self.dihedrals@.map_values(|d: TopolDihedral| d@),
            exclusions: self.exclusions@.map_values(|e: TopolExclusion| e@),
        }
    }
}

/// Whether a topology atom with number `nr` exists.
pub open spec fn has_nr(atoms: Seq<TopolAtomV>, nr: int) -> bool {
    exists|j: int| 0 <= j < atoms.len() && (#[trigger] atoms[j]).nr == nr
}

impl TopolV {
    /// Invariants of a parsed topology: every bonded term references an
    /// existing atom, and every function index is non-negative.
    pub open spec fn wf(self) -> bool {
        &&& forall|k: int|
            0 <= k < self.bonds.len() ==> has_nr(self.atoms, (#[trigger] self.bonds[k]).ai)
                && has_nr(self.atoms, self.bonds[k].aj) && self.bonds[k].funct >= 0
        &&& forall|k: int|
            0 <= k < self.pairs.len() ==> has_nr(self.atoms, (#[trigger] self.pairs[k]).ai)
                && has_nr(self.atoms, self.pairs[k].aj) && self.pairs[k].funct >= 0
        &&& forall|k: int|
            0 <= k < self.constraints.len() ==> has_nr(
                self.atoms,
                (#[trigger] self.constraints[k]).ai,
            ) && has_nr(self.atoms, self.constraints[k].aj) && self.constraints[k].funct >= 0
        &&& forall|k: int|
            0 <= k < self.angles.len() ==> has_nr(self.atoms, (#[trigger] self.angles[k]).ai)
                && has_nr(self.atoms, self.angles[k].aj) && has_nr(self.atoms, self.angles[k].ak)
                && self.angles[k].funct >= 0
        &&& forall|k: int|
            0 <= k < self.dihedrals.len() ==> has_nr(self.atoms, (#[trigger] self.dihedrals[k]).ai)
                && has_nr(self.atoms, self.dihedrals[k].aj) && has_nr(
                self.atoms,
                self.dihedrals[k].ak,
            ) && has_nr(self.atoms, self.dihedrals[k].al) && self.dihedrals[k].funct >= 0
        &&& forall|k: int, j: int|
            0 <= k < self.exclusions.len() && 0 <= j < self.exclusions[k].ex_atoms.len() ==> has_nr(
                self.atoms,
                #[trigger] self.exclusions[k].ex_atoms[j],
            )
        &&& forall|k: int| 0 <= k < self.atoms.len() ==> (#[trigger] self.atoms[k]).nr >= 1
    }
}

/// How many of the given atom ids lie in the exclusion set.
pub open spec fn count_in(ex: Seq<int>, ids: Seq<int>) -> int
    decreases ids.len(),
{
    if ids.len() == 0 {
        0
    } else {
        (if ex.contains(ids[0]) {
            1int
        } else {
            0int
        }) + count_in(ex, ids.drop_first())
    }
}

/// The elements of a sequence satisfying a predicate, order kept.
pub open spec fn keep_seq<T>(s: Seq<T>, p: spec_fn(T) -> bool) -> Seq<T>
    decreases s.len(),
{
    if s.len() == 0 {
        Seq::empty()
    } else {
        let tail = keep_seq(s.drop_first(), p);
        if p(s[0]) {
            seq![s[0]] + tail
        } else {
            tail
        }
    }
}

/// A value lies in the kept sequence exactly when it lies in the
/// original and satisfies the predicate.
pub proof fn lemma_keep_seq_contains<T>(s: Seq<T>, p: spec_fn(T) -> bool, x: T)
    ensures
        keep_seq(s, p).contains(x) <==> s.contains(x) && p(x),
    decreases s.len(),
{
    let r = keep_seq(s, p);
    let tail = keep_seq(s.drop_first(), p);
    if s.len() > 0 {
        lemma_keep_seq_contains(s.drop_first(), p, x);
        if r.contains(x) {
            let k = choose|k: int| 0 <= k < r.len() && r[k] == x;
            if p(s[0]) {
                if k == 0 {
                    assert(s.contains(x)) by {
                        assert(s[0] == x);
                    }
                } else {
                    assert(tail[k - 1] == x);
                }
            } else {
                assert(tail[k] == x);
            }
            if s.drop_first().contains(x) {
                let j = choose|j: int| 0 <= j < s.drop_first().len() && s.drop_first()[j] == x;
                assert(s[j + 1] == x);
            }
        }
        if s.contains(x) && p(x) {
            let k = choose|k: int| 0 <= k < s.len() && s[k] == x;
            if k == 0 {
                assert(r[0] == x);
            } else {
                assert(s.drop_first()[k - 1] == x);
                assert(tail.contains(x));
                let j = choose|j: int| 0 <= j < tail.len() && tail[j] == x;
                if p(s[0]) {
                    assert(r[j + 1] == x);
                } else {
                    assert(r[j] == x);
                }
            }
        }
    }
}

/// The atom ids a bonded term references.
pub open spec fn bond_ids(b: TopolBondV) -> Seq<int> {
    seq![b.ai, b.aj]
}

pub open spec fn angle_ids(a: TopolAngleV) -> Seq<int> {
    seq![a.ai, a.aj, a.ak]
}

pub open spec fn dihedral_ids(d: TopolDihedralV) -> Seq<int> {
    seq![d.ai, d.aj, d.ak, d.al]
}

/// A bond is retained when at most one of its two atoms lies in each
/// exclusion set.
pub open spec fn keep_bond(exn: Seq<int>, exc: Seq<int>, b: TopolBondV) -> bool {
    count_in(exn, bond_ids(b)) <= 1 && count_in(exc, bond_ids(b)) <= 1
}

/// An angle is retained when at most one of its three atoms lies in
/// each exclusion set.
pub open spec fn keep_angle(exn: Seq<int>, exc: Seq<int>, a: TopolAngleV) -> bool {
    count_in(exn, angle_ids(a)) <= 1 && count_in(exc, angle_ids(a)) <= 1
}

/// A dihedral is retained when at most two of its four atoms lie in
/// each exclusion set.
pub open spec fn keep_dihedral(exn: Seq<int>, exc: Seq<int>, d: TopolDihedralV) -> bool {
    count_in(exn, dihedral_ids(d)) <= 2 && count_in(exc, dihedral_ids(d)) <= 2
}

/// The boundary pruning thresholds, stated whole: a bond stands in the
/// filtered list exactly when it stood in the original and at most one
/// of its two atoms lies in each exclusion set; an angle exactly when at
/// most one of its three does; a dihedral exactly when at most two of
/// its four do.
pub proof fn lemma_pruning_thresholds(
    exn: Seq<int>,
    exc: Seq<int>,
    bonds: Seq<TopolBondV>,
    angles: Seq<TopolAngleV>,
    dihedrals: Seq<TopolDihedralV>,
)
    ensures
        forall|b: TopolBondV|
            keep_seq(bonds, |x: TopolBondV| keep_bond(exn, exc, x)).contains(b) <==> bonds.contains(
                b,
            ) && count_in(exn, bond_ids(b)) <= 1 && count_in(exc, bond_ids(b)) <= 1,
        forall|a: TopolAngleV|
            keep_seq(angles, |x: TopolAngleV| keep_angle(exn, exc, x)).contains(a)
                <==> angles.contains(a) && count_in(exn, angle_ids(a)) <= 1 && count_in(
                exc,
                angle_ids(a),
            ) <= 1,
        forall|d: TopolDihedralV|
            keep_seq(dihedrals, |x: TopolDihedralV| keep_dihedral(exn, exc, x)).contains(d)
                <==> dihedrals.contains(d) && count_in(exn, dihedral_ids(d)) <= 2 && count_in(
                exc,
                dihedral_ids(d),
            ) <= 2,
{
    assert forall|b: TopolBondV|
        keep_seq(bonds, |x: TopolBondV| keep_bond(exn, exc, x)).contains(b) <==> bonds.contains(b)
            && count_in(exn, bond_ids(b)) <= 1 && count_in(exc, bond_ids(b)) <= 1 by {
        lemma_keep_seq_contains(bonds, |x: TopolBondV| keep_bond(exn, exc, x), b);
    }
    assert forall|a: TopolAngleV|
        keep_seq(angles, |x: TopolAngleV| keep_angle(exn, exc, x)).contains(a) <==> angles.contains(
            a,
        ) && count_in(exn, angle_ids(a)) <= 1 && count_in(exc, angle_ids(a)) <= 1 by {
        lemma_keep_seq_contains(angles, |x: TopolAngleV| keep_angle(exn, exc, x), a);
    }
    assert forall|d: TopolDihedralV|
        keep_seq(dihedrals, |x: TopolDihedralV| keep_dihedral(exn, exc, x)).contains(d)
            <==> dihedrals.contains(d) && count_in(exn, dihedral_ids(d)) <= 2 && count_in(
            exc,
            dihedral_ids(d),
        ) <= 2 by {
        lemma_keep_seq_contains(dihedrals, |x: TopolDihedralV| keep_dihedral(exn, exc, x), d);
    }
}

/// Counts how many of the ids lie in the exclusion list.
fn count_in_exec(ex: &Vec<usize>, ids: &Vec<usize>) -> (r: usize)
    ensures
        r as int == count_in(
            ex@.map_values(|u: usize| u as int),
            ids@.map_values(|u: usize| u as int),
        ),
        r <= ids@.len(),
{
    let ghost gex = ex@.map_values(|u: usize| u as int);
    let ghost gids = ids@.map_values(|u: usize| u as int);
    let n = ids.len();
    let mut r: usize = 0;
    let mut i: usize = 0;
    proof {
        assert(gids.skip(0) =~= gids);
    }
    while i < n
        invariant
            0 <= i <= n,
            n == ids@.len(),
            gex == ex@.map_values(|u: usize| u as int),
            gids == ids@.map_values(|u: usize| u as int),
            r <= i,
            count_in(gex, gids) == r + count_in(gex, gids.skip(i as int)),
        decreases n - i,
    {
        proof {
            assert(gids.skip(i as int)[0] == gids[i as int]);
            assert(gids.skip(i as int).drop_first() =~= gids.skip(i + 1));
            crate::boundary::lemma_contains_int(ex@, ids@[i as int]);
        }
        if contains_id(ex, ids[i]) {
            r = r + 1;
        }
        i = i + 1;
    }
    proof {
        assert(gids.skip(n as int) =~= Seq::<int>::empty());
    }
    r
}


/// The sections of a topology file; `Preamble` precedes the first
/// header and `Other` is any unrecognized section, whose lines are
/// ignored.
#[derive(Debug, Clone, Copy, PartialEq, Eq, Structural)]
pub enum Section {
    Preamble,
    Atomtypes,
    Moleculetype,
    Atoms,
    Bonds,
    Pairs,
    Constraints,
    Angles,
    Dihedrals,
    Exclusions,
    Other,
}

/// Index of the last occurrence of `c`, or -1.
pub open spec fn last_index_of_char(s: Seq<char>, c: char) -> int
    decreases s.len(),
{
    if s.len() == 0 {
        -1
    } else if s.last() == c {
        s.len() - 1
    } else {
        last_index_of_char(s.drop_last(), c)
    }
}

pub proof fn lemma_last_index_of_char_props(s: Seq<char>, c: char)
    ensures
        last_index_of_char(s, c) == -1 ==> forall|i: int| 0 <= i < s.len() ==> s[i] != c,
        last_index_of_char(s, c) != -1 ==> {
            let r = last_index_of_char(s, c);
            &&& 0 <= r < s.len()
            &&& s[r] == c
            &&& forall|i: int| r < i < s.len() ==> s[i] != c
        },
    decreases s.len(),
{
    if s.len() > 0 && s.last() != c {
        lemma_last_index_of_char_props(s.drop_last(), c);
        assert(forall|i: int| 0 <= i < s.len() - 1 ==> (#[trigger] s[i]) == s.drop_last()[i]);
    }
}

/// Finds the last occurrence of `c` before position `j`.
fn rfind_char(s: &str, j: usize, c: char) -> (r: Option<usize>)
    requires
        j <= s@.len(),
    ensures
        match r {
            Some(i) => i < j && s@[i as int] == c && forall|m: int|
                i < m < j ==> #[trigger] s@[m] != c,
            None => forall|m: int| 0 <= m < j ==> #[trigger] s@[m] != c,
        },
    decreases j,
{
    if j == 0 {
        return None;
    }
    if s.get_char(j - 1) == c {
        Some(j - 1)
    } else {
        rfind_char(s, j - 1, c)
    }
}

/// Finds the first occurrence of `c` at or after position `i`.
fn find_char(s: &str, i: usize, n: usize, c: char) -> (r: Option<usize>)
    requires
        n == s@.len(),
        i <= n,
        forall|m: int| 0 <= m < i ==> #[trigger] s@[m] != c,
    ensures
        match r {
            Some(k) => k < n && s@[k as int] == c && forall|m: int|
                0 <= m < k ==> #[trigger] s@[m] != c,
            None => forall|m: int| 0 <= m < n ==> #[trigger] s@[m] != c,
        },
    decreases n - i,
{
    if i == n {
        return None;
    }
    if s.get_char(i) == c {
        Some(i)
    } else {
        find_char(s, i + 1, n, c)
    }
}

/// Index of the first occurrence of `c`, or -1.
pub open spec fn first_index_of_char(s: Seq<char>, c: char) -> int
    decreases s.len(),
{
    if s.len() == 0 {
        -1
    } else if s[0] == c {
        0
    } else {
        let r = first_index_of_char(s.drop_first(), c);
        if r < 0 {
            -1
        } else {
            r + 1
        }
    }
}

pub proof fn lemma_first_index_of_char_props(s: Seq<char>, c: char)
    ensures
        first_index_of_char(s, c) == -1 ==> forall|i: int| 0 <= i < s.len() ==> s[i] != c,
        first_index_of_char(s, c) != -1 ==> {
            let r = first_index_of_char(s, c);
            &&& 0 <= r < s.len()
            &&& s[r] == c
            &&& forall|i: int| 0 <= i < r ==> s[i] != c
        },
    decreases s.len(),
{
    if s.len() > 0 && s[0] != c {
        lemma_first_index_of_char_props(s.drop_first(), c);
        assert(forall|i: int| 1 <= i < s.len() ==> (#[trigger] s[i]) == s.drop_first()[i - 1]);
    }
}

/// The line with everything from its first semicolon on removed.
pub open spec fn spec_strip_comment(s: Seq<char>) -> Seq<char> {
    let i = first_index_of_char(s, ';');
    if i < 0 {
        s
    } else {
        s.take(i)
    }
}

/// Removes the comment part of a line.
pub fn strip_comment<'a>(s: &'a str) -> (r: &'a str)
    ensures
        r@ == spec_strip_comment(s@),
{
    let n = s.unicode_len();
    proof {
        lemma_first_index_of_char_props(s@, ';');
    }
    match find_char(s, 0, n, ';') {
        Some(k) => {
            proof {
                assert(first_index_of_char(s@, ';') == k);
            }
            let r = s.substring_char(0, k);
            proof {
                assert(r@ =~= s@.take(k as int));
            }
            r
        },
        None => {
            proof {
                assert(first_index_of_char(s@, ';') == -1);
            }
            s
        },
    }
}

/// The section name on a header line: the trimmed text between the last
/// opening bracket that a closing bracket follows and the last closing
/// bracket; nothing when the line is no header.
pub open spec fn spec_section_header(line: Seq<char>) -> Option<Seq<char>> {
    let rb = last_index_of_char(line, ']');
    if rb < 0 {
        None
    } else {
        let lb = last_index_of_char(line.take(rb), '[');
        if lb < 0 {
            None
        } else {
            Some(crate::text::spec_trim(line.subrange(lb + 1, rb)))
        }
    }
}

/// Recognizes a section header line and yields its name.
pub fn section_header(line: &str) -> (r: Option<String>)
    ensures
        match r {
            Some(name) => spec_section_header(line@) == Some(name@),
            None => spec_section_header(line@) is None,
        },
{
    let n = line.unicode_len();
    proof {
        lemma_last_index_of_char_props(line@, ']');
    }
    let rb = match rfind_char(line, n, ']') {
        Some(i) => {
            proof {
                assert(last_index_of_char(line@, ']') == i);
            }
            i
        },
        None => {
            proof {
                assert(last_index_of_char(line@, ']') == -1);
            }
            return None;
        },
    };
    proof {
        assert(line@.take(rb as int) =~= line@.subrange(0, rb as int));
        lemma_last_index_of_char_props(line@.take(rb as int), '[');
    }
    let lb = match rfind_char(line, rb, '[') {
        Some(i) => {
            proof {
                assert(line@.take(rb as int)[i as int] == '[');
                assert(forall|m: int|
                    i < m < rb ==> #[trigger] line@.take(rb as int)[m] != '[');
                assert(last_index_of_char(line@.take(rb as int), '[') == i);
            }
            i
        },
        None => {
            proof {
                assert(forall|m: int| 0 <= m < rb ==> #[trigger] line@.take(rb as int)[m] != '[');
                assert(last_index_of_char(line@.take(rb as int), '[') == -1);
            }
            return None;
        },
    };
    let inner = line.substring_char(lb + 1, rb);
    proof {
        assert(inner@ =~= line@.subrange(lb as int + 1, rb as int));
    }
    Some(String::from_str(crate::text::trim(inner)))
}

/// The section a header name selects.
pub open spec fn section_of_name(name: Seq<char>) -> Section {
    if name == "atomtypes"@ {
        Section::Atomtypes
    } else if name == "moleculetype"@ {
        Section::Moleculetype
    } else if name == "atoms"@ {
        Section::Atoms
    } else if name == "bonds"@ {
        Section::Bonds
    } else if name == "pairs"@ {
        Section::Pairs
    } else if name == "constraints"@ {
        Section::Constraints
    } else if name == "angles"@ {
        Section::Angles
    } else if name == "dihedrals"@ {
        Section::Dihedrals
    } else if name == "exclusions"@ {
        Section::Exclusions
    } else {
        Section::Other
    }
}

fn section_of_name_exec(name: &str) -> (r: Section)
    ensures
        r == section_of_name(name@),
{
    if str_eq(name, "atomtypes") {
        Section::Atomtypes
    } else if str_eq(name, "moleculetype") {
        Section::Moleculetype
    } else if str_eq(name, "atoms") {
        Section::Atoms
    } else if str_eq(name, "bonds") {
        Section::Bonds
    } else if str_eq(name, "pairs") {
        Section::Pairs
    } else if str_eq(name, "constraints") {
        Section::Constraints
    } else if str_eq(name, "angles") {
        Section::Angles
    } else if str_eq(name, "dihedrals") {
        Section::Dihedrals
    } else if str_eq(name, "exclusions") {
        Section::Exclusions
    } else {
        Section::Other
    }
}


/// One atom-type line: the name field first, the last five fields
/// mass, charge, particle type, sigma and epsilon.
pub open spec fn spec_parse_atomtype(toks: Seq<Seq<char>>, ln: int) -> Result<
    TopolAtomtypeV,
    GenError,
> {
    if toks.len() < 6 {
        Err(GenError::FormatError { line: ln as usize })
    } else {
        let l = toks.len() as int;
        if is_float_token(toks[l - 5]) && is_float_token(toks[l - 4]) && is_float_token(
            toks[l - 2],
        ) && is_float_token(toks[l - 1]) {
            Ok(
                TopolAtomtypeV {
                    name: toks[0],
                    mass: toks[l - 5],
                    charge: toks[l - 4],
                    ptype: toks[l - 3],
                    sigma: toks[l - 2],
                    epsilon: toks[l - 1],
                },
            )
        } else {
            Err(GenError::FormatError { line: ln as usize })
        }
    }
}

/// One topology-atom line; the atom's name is overwritten from the
/// structure-file graph, which the number must reference.
pub open spec fn spec_parse_topol_atom(
    toks: Seq<Seq<char>>,
    ln: int,
    mol2atoms: Seq<crate::mol2::AtomV>,
) -> Result<TopolAtomV, GenError> {
    if toks.len() < 7 {
        Err(GenError::FormatError { line: ln as usize })
    } else if !crate::mol2::usize_token(toks[0]) {
        Err(GenError::FormatError { line: ln as usize })
    } else {
        let nr = crate::text::spec_val(toks[0]);
        if !(1 <= nr <= mol2atoms.len()) {
            Err(GenError::ReferenceError { id: nr as usize })
        } else if !(crate::text::is_int_token(toks[2]) && crate::text::is_int_token(toks[5])
            && is_float_token(toks[6])) {
            Err(GenError::FormatError { line: ln as usize })
        } else if toks.len() > 7 && !is_float_token(toks[7]) {
            Err(GenError::FormatError { line: ln as usize })
        } else {
            Ok(
                TopolAtomV {
                    nr: nr as int,
                    _type: toks[1],
                    resnr: toks[2],
                    resname: toks[3],
                    atom: mol2atoms[nr - 1].atom_name,
                    cgnr: toks[5],
                    charge: toks[6],
                    mass: if toks.len() > 7 {
                        Some(toks[7])
                    } else {
                        None
                    },
                },
            )
        }
    }
}

/// How one id field reads against the atoms parsed so far: the value
/// when it names an existing atom, the grammar error when it is no
/// number, the reference error otherwise.
pub open spec fn spec_ref_id(t: Seq<char>, ln: int, atoms: Seq<TopolAtomV>) -> Result<
    int,
    GenError,
> {
    if !crate::mol2::usize_token(t) {
        Err(GenError::FormatError { line: ln as usize })
    } else if !has_nr(atoms, crate::text::spec_val(t) as int) {
        Err(GenError::ReferenceError { id: crate::text::spec_val(t) as usize })
    } else {
        Ok(crate::text::spec_val(t) as int)
    }
}

pub open spec fn spec_funct(t: Seq<char>, ln: int) -> Result<int, GenError> {
    if crate::mol2::usize_token(t) && crate::text::spec_val(t) <= i32::MAX {
        Ok(crate::text::spec_val(t) as int)
    } else {
        Err(GenError::FormatError { line: ln as usize })
    }
}

pub open spec fn spec_opt_float(toks: Seq<Seq<char>>, idx: int, ln: int) -> Result<
    Option<Seq<char>>,
    GenError,
> {
    if toks.len() > idx {
        if is_float_token(toks[idx]) {
            Ok(Some(toks[idx]))
        } else {
            Err(GenError::FormatError { line: ln as usize })
        }
    } else {
        Ok(None)
    }
}

pub open spec fn spec_parse_bond(toks: Seq<Seq<char>>, ln: int, atoms: Seq<TopolAtomV>) -> Result<
    TopolBondV,
    GenError,
> {
    if toks.len() < 3 {
        Err(GenError::FormatError { line: ln as usize })
    } else {
        match spec_ref_id(toks[0], ln, atoms) {
            Err(e) => Err(e),
            Ok(ai) => match spec_ref_id(toks[1], ln, atoms) {
                Err(e) => Err(e),
                Ok(aj) => match spec_funct(toks[2], ln) {
                    Err(e) => Err(e),
                    Ok(funct) => match spec_opt_float(toks, 3, ln) {
                        Err(e) => Err(e),
                        Ok(c0) => match spec_opt_float(toks, 4, ln) {
                            Err(e) => Err(e),
                            Ok(c1) => Ok(TopolBondV { ai, aj, funct, c0, c1 }),
                        },
                    },
                },
            },
        }
    }
}

pub open spec fn spec_parse_pair(toks: Seq<Seq<char>>, ln: int, atoms: Seq<TopolAtomV>) -> Result<
    TopolPairV,
    GenError,
> {
    if toks.len() < 3 {
        Err(GenError::FormatError { line: ln as usize })
    } else {
        match spec_ref_id(toks[0], ln, atoms) {
            Err(e) => Err(e),
            Ok(ai) => match spec_ref_id(toks[1], ln, atoms) {
                Err(e) => Err(e),
                Ok(aj) => match spec_funct(toks[2], ln) {
                    Err(e) => Err(e),
                    Ok(funct) => Ok(TopolPairV { ai, aj, funct }),
                },
            },
        }
    }
}

/// The trailing coefficient fields of a constraint, which must all be
/// numbers.
pub open spec fn all_floats_from(toks: Seq<Seq<char>>, i: int) -> bool {
    forall|j: int| i <= j < toks.len() ==> is_float_token(#[trigger] toks[j])
}

pub open spec fn spec_parse_constraint(
    toks: Seq<Seq<char>>,
    ln: int,
    atoms: Seq<TopolAtomV>,
) -> Result<TopolConstraintV, GenError> {
    if toks.len() < 3 {
        Err(GenError::FormatError { line: ln as usize })
    } else {
        match spec_ref_id(toks[0], ln, atoms) {
            Err(e) => Err(e),
            Ok(ai) => match spec_ref_id(toks[1], ln, atoms) {
                Err(e) => Err(e),
                Ok(aj) => match spec_funct(toks[2], ln) {
                    Err(e) => Err(e),
                    Ok(funct) => if all_floats_from(toks, 3) {
                        Ok(
                            TopolConstraintV {
                                ai,
                                aj,
                                funct,
                                cs: toks.subrange(3, toks.len() as int),
                            },
                        )
                    } else {
                        Err(GenError::FormatError { line: ln as usize })
                    },
                },
            },
        }
    }
}

pub open spec fn spec_parse_angle(toks: Seq<Seq<char>>, ln: int, atoms: Seq<TopolAtomV>) -> Result<
    TopolAngleV,
    GenError,
> {
    if toks.len() < 4 {
        Err(GenError::FormatError { line: ln as usize })
    } else {
        match spec_ref_id(toks[0], ln, atoms) {
            Err(e) => Err(e),
            Ok(ai) => match spec_ref_id(toks[1], ln, atoms) {
                Err(e) => Err(e),
                Ok(aj) => match spec_ref_id(toks[2], ln, atoms) {
                    Err(e) => Err(e),
                    Ok(ak) => match spec_funct(toks[3], ln) {
                        Err(e) => Err(e),
                        Ok(funct) => match spec_opt_float(toks, 4, ln) {
                            Err(e) => Err(e),
                            Ok(c0) => match spec_opt_float(toks, 5, ln) {
                                Err(e) => Err(e),
                                Ok(c1) => Ok(TopolAngleV { ai, aj, ak, funct, c0, c1 }),
                            },
                        },
                    },
                },
            },
        }
    }
}

pub open spec fn spec_parse_dihedral(
    toks: Seq<Seq<char>>,
    ln: int,
    atoms: Seq<TopolAtomV>,
) -> Result<TopolDihedralV, GenError> {
    if toks.len() < 5 {
        Err(GenError::FormatError { line: ln as usize })
    } else {
        match spec_ref_id(toks[0], ln, atoms) {
            Err(e) => Err(e),
            Ok(ai) => match spec_ref_id(toks[1], ln, atoms) {
                Err(e) => Err(e),
                Ok(aj) => match spec_ref_id(toks[2], ln, atoms) {
                    Err(e) => Err(e),
                    Ok(ak) => match spec_ref_id(toks[3], ln, atoms) {
                        Err(e) => Err(e),
                        Ok(al) => match spec_funct(toks[4], ln) {
                            Err(e) => Err(e),
                            Ok(funct) => match spec_opt_float(toks, 5, ln) {
                                Err(e) => Err(e),
                                Ok(c0) => match spec_opt_float(toks, 6, ln) {
                                    Err(e) => Err(e),
                                    Ok(c1) => match spec_opt_float(toks, 7, ln) {
                                        Err(e) => Err(e),
                                        Ok(c2) => Ok(
                                            TopolDihedralV { ai, aj, ak, al, funct, c0, c1, c2 },
                                        ),
                                    },
                                },
                            },
                        },
                    },
                },
            },
        }
    }
}

/// The atom ids of an exclusion line, left to right; the first bad
/// field decides the error.
pub open spec fn spec_parse_excl_ids(
    toks: Seq<Seq<char>>,
    i: int,
    ln: int,
    atoms: Seq<TopolAtomV>,
) -> Result<Seq<int>, GenError>
    decreases toks.len() - i,
{
    if !(0 <= i < toks.len()) {
        Ok(Seq::empty())
    } else {
        match spec_ref_id(toks[i], ln, atoms) {
            Err(e) => Err(e),
            Ok(v) => match spec_parse_excl_ids(toks, i + 1, ln, atoms) {
                Err(e) => Err(e),
                Ok(rest) => Ok(seq![v] + rest),
            },
        }
    }
}

/// Whether a topology atom with number `nr` exists in the list.
fn has_nr_exec(atoms: &Vec<TopolAtom>, nr: usize) -> (r: bool)
    ensures
        r == has_nr(atoms@.map_values(|a: TopolAtom| a@), nr as int),
{
    let ghost g = atoms@.map_values(|a: TopolAtom| a@);
    let n = atoms.len();
    let mut i: usize = 0;
    while i < n
        invariant
            0 <= i <= n,
            n == atoms@.len(),
            g == atoms@.map_values(|a: TopolAtom| a@),
            forall|j: int| 0 <= j < i ==> (#[trigger] g[j]).nr != nr as int,
        decreases n - i,
    {
        if atoms[i].nr == nr {
            proof {
                assert(g[i as int].nr == nr as int);
            }
            return true;
        }
        proof {
            assert(g[i as int] == atoms@[i as int]@);
        }
        i = i + 1;
    }
    false
}

/// Reads one id field against the atoms parsed so far.
fn parse_ref_id(t: &String, ln: usize, atoms: &Vec<TopolAtom>) -> (r: Result<usize, GenError>)
    ensures
        match r {
            Ok(v) => spec_ref_id(t@, ln as int, atoms@.map_values(|a: TopolAtom| a@)) == Ok::<
                int,
                GenError,
            >(v as int),
            Err(e) => spec_ref_id(t@, ln as int, atoms@.map_values(|a: TopolAtom| a@)) == Err::<
                int,
                GenError,
            >(e),
        },
{
    match crate::text::parse_usize(t.as_str()) {
        Some(v) => {
            if has_nr_exec(atoms, v) {
                Ok(v)
            } else {
                Err(GenError::ReferenceError { id: v })
            }
        },
        None => Err(GenError::FormatError { line: ln }),
    }
}

/// Reads a function index field.
fn parse_funct(t: &String, ln: usize) -> (r: Result<i32, GenError>)
    ensures
        match r {
            Ok(v) => spec_funct(t@, ln as int) == Ok::<int, GenError>(v as int) && v >= 0,
            Err(e) => spec_funct(t@, ln as int) == Err::<int, GenError>(e),
        },
{
    match crate::text::parse_usize(t.as_str()) {
        Some(v) => {
            if v <= (i32::MAX as usize) {
                Ok(v as i32)
            } else {
                Err(GenError::FormatError { line: ln })
            }
        },
        None => Err(GenError::FormatError { line: ln }),
    }
}

/// Reads an optional trailing coefficient field.
fn parse_opt_float(toks: &Vec<String>, idx: usize, ln: usize) -> (r: Result<
    Option<String>,
    GenError,
>)
    ensures
        match r {
            Ok(v) => spec_opt_float(
                toks@.map_values(|t: String| t@),
                idx as int,
                ln as int,
            ) == Ok::<Option<Seq<char>>, GenError>(
                match v {
                    Some(ref s) => Some(s@),
                    None => None,
                },
            ),
            Err(e) => spec_opt_float(toks@.map_values(|t: String| t@), idx as int, ln as int)
                == Err::<Option<Seq<char>>, GenError>(e),
        },
{
    if toks.len() > idx {
        if crate::text::is_float_str(toks[idx].as_str()) {
            Ok(Some(toks[idx].clone()))
        } else {
            Err(GenError::FormatError { line: ln })
        }
    } else {
        Ok(None)
    }
}


fn parse_atomtype_exec(toks: &Vec<String>, ln: usize) -> (r: Result<TopolAtomtype, GenError>)
    ensures
        match r {
            Ok(v) => spec_parse_atomtype(toks@.map_values(|t: String| t@), ln as int) == Ok::<
                TopolAtomtypeV,
                GenError,
            >(v@),
            Err(e) => spec_parse_atomtype(toks@.map_values(|t: String| t@), ln as int) == Err::<
                TopolAtomtypeV,
                GenError,
            >(e),
        },
{
    proof {
        assert(forall|j: int|
            0 <= j < toks@.len() ==> (#[trigger] toks@[j])@ == toks@.map_values(|t: String| t@)[j]);
    }
    let l = toks.len();
    if l < 6 {
        return Err(GenError::FormatError { line: ln });
    }
    if crate::text::is_float_str(toks[l - 5].as_str()) && crate::text::is_float_str(
        toks[l - 4].as_str(),
    ) && crate::text::is_float_str(toks[l - 2].as_str()) && crate::text::is_float_str(
        toks[l - 1].as_str(),
    ) {
        Ok(
            TopolAtomtype {
                name: toks[0].clone(),
                mass: toks[l - 5].clone(),
                charge: toks[l - 4].clone(),
                ptype: toks[l - 3].clone(),
                sigma: toks[l - 2].clone(),
                epsilon: toks[l - 1].clone(),
            },
        )
    } else {
        Err(GenError::FormatError { line: ln })
    }
}

fn parse_topol_atom_exec(toks: &Vec<String>, ln: usize, mol2: &MOL2) -> (r: Result<
    TopolAtom,
    GenError,
>)
    ensures
        match r {
            Ok(v) => spec_parse_topol_atom(
                toks@.map_values(|t: String| t@),
                ln as int,
                mol2@.atoms,
            ) == Ok::<TopolAtomV, GenError>(v@) && 1 <= v.nr,
            Err(e) => spec_parse_topol_atom(
                toks@.map_values(|t: String| t@),
                ln as int,
                mol2@.atoms,
            ) == Err::<TopolAtomV, GenError>(e),
        },
{
    proof {
        assert(forall|j: int|
            0 <= j < toks@.len() ==> (#[trigger] toks@[j])@ == toks@.map_values(|t: String| t@)[j]);
    }
    if toks.len() < 7 {
        return Err(GenError::FormatError { line: ln });
    }
    let nr = match crate::text::parse_usize(toks[0].as_str()) {
        Some(v) => v,
        None => {
            return Err(GenError::FormatError { line: ln });
        },
    };
    if !(1 <= nr && nr <= mol2.atoms.len()) {
        return Err(GenError::ReferenceError { id: nr });
    }
    if !(crate::text::is_int_str(toks[2].as_str()) && crate::text::is_int_str(toks[5].as_str())
        && crate::text::is_float_str(toks[6].as_str())) {
        return Err(GenError::FormatError { line: ln });
    }
    let mass: Option<String> = if toks.len() > 7 {
        if !crate::text::is_float_str(toks[7].as_str()) {
            return Err(GenError::FormatError { line: ln });
        }
        Some(toks[7].clone())
    } else {
        None
    };
    proof {
        assert(mol2@.atoms[nr - 1] == mol2.atoms@[nr - 1]@);
    }
    Ok(
        TopolAtom {
            nr,
            _type: toks[1].clone(),
            resnr: toks[2].clone(),
            resname: toks[3].clone(),
            atom: mol2.atoms[nr - 1].atom_name.clone(),
            cgnr: toks[5].clone(),
            charge: toks[6].clone(),
            mass,
        },
    )
}

fn parse_bond_exec(toks: &Vec<String>, ln: usize, atoms: &Vec<TopolAtom>) -> (r: Result<
    TopolBond,
    GenError,
>)
    ensures
        match r {
            Ok(v) => spec_parse_bond(
                toks@.map_values(|t: String| t@),
                ln as int,
                atoms@.map_values(|a: TopolAtom| a@),
            ) == Ok::<TopolBondV, GenError>(v@) && v.funct >= 0,
            Err(e) => spec_parse_bond(
                toks@.map_values(|t: String| t@),
                ln as int,
                atoms@.map_values(|a: TopolAtom| a@),
            ) == Err::<TopolBondV, GenError>(e),
        },
{
    proof {
        assert(forall|j: int|
            0 <= j < toks@.len() ==> (#[trigger] toks@[j])@ == toks@.map_values(|t: String| t@)[j]);
    }
    if toks.len() < 3 {
        return Err(GenError::FormatError { line: ln });
    }
    let ai = match parse_ref_id(&toks[0], ln, atoms) {
        Ok(v) => v,
        Err(e) => {
            return Err(e);
        },
    };
    let aj = match parse_ref_id(&toks[1], ln, atoms) {
        Ok(v) => v,
        Err(e) => {
            return Err(e);
        },
    };
    let funct = match parse_funct(&toks[2], ln) {
        Ok(v) => v,
        Err(e) => {
            return Err(e);
        },
    };
    let c0 = match parse_opt_float(toks, 3, ln) {
        Ok(v) => v,
        Err(e) => {
            return Err(e);
        },
    };
    let c1 = match parse_opt_float(toks, 4, ln) {
        Ok(v) => v,
        Err(e) => {
            return Err(e);
        },
    };
    Ok(TopolBond { ai, aj, funct, c0, c1 })
}

fn parse_pair_exec(toks: &Vec<String>, ln: usize, atoms: &Vec<TopolAtom>) -> (r: Result<
    TopolPair,
    GenError,
>)
    ensures
        match r {
            Ok(v) => spec_parse_pair(
                toks@.map_values(|t: String| t@),
                ln as int,
                atoms@.map_values(|a: TopolAtom| a@),
            ) == Ok::<TopolPairV, GenError>(v@) && v.funct >= 0,
            Err(e) => spec_parse_pair(
                toks@.map_values(|t: String| t@),
                ln as int,
                atoms@.map_values(|a: TopolAtom| a@),
            ) == Err::<TopolPairV, GenError>(e),
        },
{
    proof {
        assert(forall|j: int|
            0 <= j < toks@.len() ==> (#[trigger] toks@[j])@ == toks@.map_values(|t: String| t@)[j]);
    }
    if toks.len() < 3 {
        return Err(GenError::FormatError { line: ln });
    }
    let ai = match parse_ref_id(&toks[0], ln, atoms) {
        Ok(v) => v,
        Err(e) => {
            return Err(e);
        },
    };
    let aj = match parse_ref_id(&toks[1], ln, atoms) {
        Ok(v) => v,
        Err(e) => {
            return Err(e);
        },
    };
    let funct = match parse_funct(&toks[2], ln) {
        Ok(v) => v,
        Err(e) => {
            return Err(e);
        },
    };
    Ok(TopolPair { ai, aj, funct })
}

#[verifier::loop_isolation(false)]
fn parse_constraint_exec(toks: &Vec<String>, ln: usize, atoms: &Vec<TopolAtom>) -> (r: Result<
    TopolConstraint,
    GenError,
>)
    ensures
        match r {
            Ok(v) => spec_parse_constraint(
                toks@.map_values(|t: String| t@),
                ln as int,
                atoms@.map_values(|a: TopolAtom| a@),
            ) == Ok::<TopolConstraintV, GenError>(v@) && v.funct >= 0,
            Err(e) => spec_parse_constraint(
                toks@.map_values(|t: String| t@),
                ln as int,
                atoms@.map_values(|a: TopolAtom| a@),
            ) == Err::<TopolConstraintV, GenError>(e),
        },
{
    let ghost gtoks = toks@.map_values(|t: String| t@);
    proof {
        assert(forall|j: int| 0 <= j < toks@.len() ==> (#[trigger] toks@[j])@ == gtoks[j]);
    }
    if toks.len() < 3 {
        return Err(GenError::FormatError { line: ln });
    }
    let ai = match parse_ref_id(&toks[0], ln, atoms) {
        Ok(v) => v,
        Err(e) => {
            return Err(e);
        },
    };
    let aj = match parse_ref_id(&toks[1], ln, atoms) {
        Ok(v) => v,
        Err(e) => {
            return Err(e);
        },
    };
    let funct = match parse_funct(&toks[2], ln) {
        Ok(v) => v,
        Err(e) => {
            return Err(e);
        },
    };
    let n = toks.len();
    let mut cs: Vec<String> = Vec::new();
    let mut i: usize = 3;
    while i < n
        invariant
            3 <= i <= n,
            n == toks@.len(),
            gtoks == toks@.map_values(|t: String| t@),
            forall|j: int| 0 <= j < toks@.len() ==> (#[trigger] toks@[j])@ == gtoks[j],
            forall|j: int| 3 <= j < i ==> is_float_token(#[trigger] gtoks[j]),
            cs@.map_values(|c: String| c@) =~= gtoks.subrange(3, i as int),
        decreases n - i,
    {
        if !crate::text::is_float_str(toks[i].as_str()) {
            return Err(GenError::FormatError { line: ln });
        }
        let c = toks[i].clone();
        proof {
            assert((cs@ + seq![c]).map_values(|x: String| x@) =~= cs@.map_values(|x: String| x@)
                + seq![c@]);
            assert(gtoks.subrange(3, i as int).push(gtoks[i as int]) =~= gtoks.subrange(
                3,
                i as int + 1,
            ));
        }
        cs.push(c);
        i = i + 1;
    }
    Ok(TopolConstraint { ai, aj, funct, cs })
}

fn parse_angle_exec(toks: &Vec<String>, ln: usize, atoms: &Vec<TopolAtom>) -> (r: Result<
    TopolAngle,
    GenError,
>)
    ensures
        match r {
            Ok(v) => spec_parse_angle(
                toks@.map_values(|t: String| t@),
                ln as int,
                atoms@.map_values(|a: TopolAtom| a@),
            ) == Ok::<TopolAngleV, GenError>(v@) && v.funct >= 0,
            Err(e) => spec_parse_angle(
                toks@.map_values(|t: String| t@),
                ln as int,
                atoms@.map_values(|a: TopolAtom| a@),
            ) == Err::<TopolAngleV, GenError>(e),
        },
{
    proof {
        assert(forall|j: int|
            0 <= j < toks@.len() ==> (#[trigger] toks@[j])@ == toks@.map_values(|t: String| t@)[j]);
    }
    if toks.len() < 4 {
        return Err(GenError::FormatError { line: ln });
    }
    let ai = match parse_ref_id(&toks[0], ln, atoms) {
        Ok(v) => v,
        Err(e) => {
            return Err(e);
        },
    };
    let aj = match parse_ref_id(&toks[1], ln, atoms) {
        Ok(v) => v,
        Err(e) => {
            return Err(e);
        },
    };
    let ak = match parse_ref_id(&toks[2], ln, atoms) {
        Ok(v) => v,
        Err(e) => {
            return Err(e);
        },
    };
    let funct = match parse_funct(&toks[3], ln) {
        Ok(v) => v,
        Err(e) => {
            return Err(e);
        },
    };
    let c0 = match parse_opt_float(toks, 4, ln) {
        Ok(v) => v,
        Err(e) => {
            return Err(e);
        },
    };
    let c1 = match parse_opt_float(toks, 5, ln) {
        Ok(v) => v,
        Err(e) => {
            return Err(e);
        },
    };
    Ok(TopolAngle { ai, aj, ak, funct, c0, c1 })
}

fn parse_dihedral_exec(toks: &Vec<String>, ln: usize, atoms: &Vec<TopolAtom>) -> (r: Result<
    TopolDihedral,
    GenError,
>)
    ensures
        match r {
            Ok(v) => spec_parse_dihedral(
                toks@.map_values(|t: String| t@),
                ln as int,
                atoms@.map_values(|a: TopolAtom| a@),
            ) == Ok::<TopolDihedralV, GenError>(v@) && v.funct >= 0,
            Err(e) => spec_parse_dihedral(
                toks@.map_values(|t: String| t@),
                ln as int,
                atoms@.map_values(|a: TopolAtom| a@),
            ) == Err::<TopolDihedralV, GenError>(e),
        },
{
    proof {
        assert(forall|j: int|
            0 <= j < toks@.len() ==> (#[trigger] toks@[j])@ == toks@.map_values(|t: String| t@)[j]);
    }
    if toks.len() < 5 {
        return Err(GenError::FormatError { line: ln });
    }
    let ai = match parse_ref_id(&toks[0], ln, atoms) {
        Ok(v) => v,
        Err(e) => {
            return Err(e);
        },
    };
    let aj = match parse_ref_id(&toks[1], ln, atoms) {
        Ok(v) => v,
        Err(e) => {
            return Err(e);
        },
    };
    let ak = match parse_ref_id(&toks[2], ln, atoms) {
        Ok(v) => v,
        Err(e) => {
            return Err(e);
        },
    };
    let al = match parse_ref_id(&toks[3], ln, atoms) {
        Ok(v) => v,
        Err(e) => {
            return Err(e);
        },
    };
    let funct = match parse_funct(&toks[4], ln) {
        Ok(v) => v,
        Err(e) => {
            return Err(e);
        },
    };
    let c0 = match parse_opt_float(toks, 5, ln) {
        Ok(v) => v,
        Err(e) => {
            return Err(e);
        },
    };
    let c1 = match parse_opt_float(toks, 6, ln) {
        Ok(v) => v,
        Err(e) => {
            return Err(e);
        },
    };
    let c2 = match parse_opt_float(toks, 7, ln) {
        Ok(v) => v,
        Err(e) => {
            return Err(e);
        },
    };
    Ok(TopolDihedral { ai, aj, ak, al, funct, c0, c1, c2 })
}

fn parse_exclusion_exec(toks: &Vec<String>, ln: usize, atoms: &Vec<TopolAtom>) -> (r: Result<
    TopolExclusion,
    GenError,
>)
    ensures
        match r {
            Ok(v) => spec_parse_excl_ids(
                toks@.map_values(|t: String| t@),
                0,
                ln as int,
                atoms@.map_values(|a: TopolAtom| a@),
            ) == Ok::<Seq<int>, GenError>(v@.ex_atoms),
            Err(e) => spec_parse_excl_ids(
                toks@.map_values(|t: String| t@),
                0,
                ln as int,
                atoms@.map_values(|a: TopolAtom| a@),
            ) == Err::<Seq<int>, GenError>(e),
        },
{
    let ghost gtoks = toks@.map_values(|t: String| t@);
    let ghost gatoms = atoms@.map_values(|a: TopolAtom| a@);
    let n = toks.len();
    let mut ids: Vec<usize> = Vec::new();
    let mut i: usize = 0;
    while i < n
        invariant
            0 <= i <= n,
            n == toks@.len(),
            gtoks == toks@.map_values(|t: String| t@),
            gatoms == atoms@.map_values(|a: TopolAtom| a@),
            spec_parse_excl_ids(gtoks, 0, ln as int, gatoms) == (match spec_parse_excl_ids(
                gtoks,
                i as int,
                ln as int,
                gatoms,
            ) {
                Ok(rest) => Ok::<Seq<int>, GenError>(
                    ids@.map_values(|u: usize| u as int) + rest,
                ),
                Err(e) => Err::<Seq<int>, GenError>(e),
            }),
        decreases n - i,
    {
        proof {
            assert(toks@[i as int]@ == gtoks[i as int]);
        }
        let v = match parse_ref_id(&toks[i], ln, atoms) {
            Ok(v) => v,
            Err(e) => {
                return Err(e);
            },
        };
        let ghost prev = ids@.map_values(|u: usize| u as int);
        ids.push(v);
        proof {
            assert(ids@.map_values(|u: usize| u as int) =~= prev + seq![v as int]);
            if spec_parse_excl_ids(gtoks, i as int + 1, ln as int, gatoms) is Ok {
                let rest = spec_parse_excl_ids(gtoks, i as int + 1, ln as int, gatoms)->Ok_0;
                assert(prev + (seq![v as int] + rest) =~= (prev + seq![v as int]) + rest);
            }
        }
        i = i + 1;
    }
    proof {
        assert(ids@.map_values(|u: usize| u as int) + Seq::<int>::empty() =~= ids@.map_values(
            |u: usize| u as int,
        ));
    }
    Ok(TopolExclusion { ex_atoms: ids })
}


/// The running parse state: the current section and the topology built
/// so far.
pub ghost struct ParseStV {
    pub sec: Section,
    pub t: TopolV,
}

/// The topology before any line is read: empty but for the residue
/// name, which defaults to the structure file's system name, and the
/// default exclusion distance.
pub open spec fn init_topol(m: crate::mol2::MOL2V) -> TopolV {
    TopolV {
        atomtypes: Seq::empty(),
        moleculetype: m.mol.sys_name,
        nrexcl: 3,
        atoms: Seq::empty(),
        bonds: Seq::empty(),
        pairs: Seq::empty(),
        constraints: Seq::empty(),
        angles: Seq::empty(),
        dihedrals: Seq::empty(),
        exclusions: Seq::empty(),
    }
}

/// How one line advances the parse: comments are stripped, blank lines
/// are skipped, a header line selects the section, and a data line adds
/// one record of the current section.
pub open spec fn spec_itp_step(
    st: ParseStV,
    line: Seq<char>,
    ln: int,
    mol2atoms: Seq<crate::mol2::AtomV>,
) -> Result<ParseStV, GenError> {
    let stripped = crate::text::spec_trim(spec_strip_comment(line));
    if stripped.len() == 0 {
        Ok(st)
    } else {
        match spec_section_header(stripped) {
            Some(name) => Ok(ParseStV { sec: section_of_name(name), ..st }),
            None => {
                let toks = crate::text::spec_tokens(stripped);
                match st.sec {
                    Section::Atomtypes => match spec_parse_atomtype(toks, ln) {
                        Err(e) => Err(e),
                        Ok(v) => Ok(
                            ParseStV {
                                sec: st.sec,
                                t: TopolV { atomtypes: st.t.atomtypes.push(v), ..st.t },
                            },
                        ),
                    },
                    Section::Moleculetype => if toks.len() < 2 {
                        Err(GenError::FormatError { line: ln as usize })
                    } else {
                        match spec_funct(toks[1], ln) {
                            Err(e) => Err(e),
                            Ok(v) => Ok(
                                ParseStV {
                                    sec: st.sec,
                                    t: TopolV { moleculetype: toks[0], nrexcl: v, ..st.t },
                                },
                            ),
                        }
                    },
                    Section::Atoms => match spec_parse_topol_atom(toks, ln, mol2atoms) {
                        Err(e) => Err(e),
                        Ok(v) => Ok(
                            ParseStV { sec: st.sec, t: TopolV { atoms: st.t.atoms.push(v), ..st.t } },
                        ),
                    },
                    Section::Bonds => match spec_parse_bond(toks, ln, st.t.atoms) {
                        Err(e) => Err(e),
                        Ok(v) => Ok(
                            ParseStV { sec: st.sec, t: TopolV { bonds: st.t.bonds.push(v), ..st.t } },
                        ),
                    },
                    Section::Pairs => match spec_parse_pair(toks, ln, st.t.atoms) {
                        Err(e) => Err(e),
                        Ok(v) => Ok(
                            ParseStV { sec: st.sec, t: TopolV { pairs: st.t.pairs.push(v), ..st.t } },
                        ),
                    },
                    Section::Constraints => match spec_parse_constraint(toks, ln, st.t.atoms) {
                        Err(e) => Err(e),
                        Ok(v) => Ok(
                            ParseStV {
                                sec: st.sec,
                                t: TopolV { constraints: st.t.constraints.push(v), ..st.t },
                            },
                        ),
                    },
                    Section::Angles => match spec_parse_angle(toks, ln, st.t.atoms) {
                        Err(e) => Err(e),
                        Ok(v) => Ok(
                            ParseStV {
                                sec: st.sec,
                                t: TopolV { angles: st.t.angles.push(v), ..st.t },
                            },
                        ),
                    },
                    Section::Dihedrals => match spec_parse_dihedral(toks, ln, st.t.atoms) {
                        Err(e) => Err(e),
                        Ok(v) => Ok(
                            ParseStV {
                                sec: st.sec,
                                t: TopolV { dihedrals: st.t.dihedrals.push(v), ..st.t },
                            },
                        ),
                    },
                    Section::Exclusions => match spec_parse_excl_ids(toks, 0, ln, st.t.atoms) {
                        Err(e) => Err(e),
                        Ok(v) => Ok(
                            ParseStV {
                                sec: st.sec,
                                t: TopolV {
                                    exclusions: st.t.exclusions.push(
                                        TopolExclusionV { ex_atoms: v },
                                    ),
                                    ..st.t
                                },
                            },
                        ),
                    },
                    Section::Preamble => Ok(st),
                    Section::Other => Ok(st),
                }
            },
        }
    }
}

pub open spec fn spec_itp_fold(
    lines: Seq<Seq<char>>,
    i: int,
    st: ParseStV,
    mol2atoms: Seq<crate::mol2::AtomV>,
) -> Result<TopolV, GenError>
    decreases lines.len() - i,
{
    if !(0 <= i < lines.len()) {
        Ok(st.t)
    } else {
        match spec_itp_step(st, lines[i], i, mol2atoms) {
            Err(e) => Err(e),
            Ok(st2) => spec_itp_fold(lines, i + 1, st2, mol2atoms),
        }
    }
}

/// The whole topology read from its text, the atom names overwritten
/// from the structure file's graph.
pub open spec fn spec_parse_itp(content: Seq<char>, m: crate::mol2::MOL2V) -> Result<
    TopolV,
    GenError,
> {
    spec_itp_fold(
        crate::text::spec_split_lines(content),
        0,
        ParseStV { sec: Section::Preamble, t: init_topol(m) },
        m.atoms,
    )
}

proof fn lemma_has_nr_push(atoms: Seq<TopolAtomV>, a: TopolAtomV, x: int)
    requires
        has_nr(atoms, x),
    ensures
        has_nr(atoms.push(a), x),
{
    let j = choose|j: int| 0 <= j < atoms.len() && (#[trigger] atoms[j]).nr == x;
    assert(atoms.push(a)[j].nr == x);
}

impl Topol {
    /// Reads a topology from its text; atom names are replaced by the
    /// names carried by the structure file's graph, which must already
    /// be renamed as desired.
    #[verifier::loop_isolation(false)]
    #[verifier::rlimit(100)]
    pub fn from(content: &str, mol2: &MOL2) -> (r: Result<Topol, GenError>)
        ensures
            (r is Ok) == (spec_parse_itp(content@, mol2@) is Ok),
            r matches Ok(t) ==> Ok::<TopolV, GenError>(t@) == spec_parse_itp(content@, mol2@)
                && t@.wf(),
            r matches Err(e) ==> spec_parse_itp(content@, mol2@) == Err::<TopolV, GenError>(e),
    {
        let raw = crate::text::split_lines(content);
        let ghost glines = crate::text::spec_split_lines(content@);
        let ghost gm = mol2@.atoms;
        let ghost st0 = ParseStV { sec: Section::Preamble, t: init_topol(mol2@) };
        let mut sec = Section::Preamble;
        let mut atomtypes: Vec<TopolAtomtype> = Vec::new();
        let mut moleculetype: String = mol2.mol.sys_name.clone();
        let mut nrexcl: i32 = 3;
        let mut atoms: Vec<TopolAtom> = Vec::new();
        let mut bonds: Vec<TopolBond> = Vec::new();
        let mut pairs: Vec<TopolPair> = Vec::new();
        let mut constraints: Vec<TopolConstraint> = Vec::new();
        let mut angles: Vec<TopolAngle> = Vec::new();
        let mut dihedrals: Vec<TopolDihedral> = Vec::new();
        let mut exclusions: Vec<TopolExclusion> = Vec::new();
        let n = raw.len();
        let mut i: usize = 0;
        proof {
            assert(raw@.map_values(|l: String| l@) == glines);
            assert(forall|j: int| 0 <= j < raw@.len() ==> (#[trigger] raw@[j])@ == glines[j]);
            assert(atomtypes@.map_values(|a: TopolAtomtype| a@) =~= Seq::<TopolAtomtypeV>::empty());
            assert(atoms@.map_values(|a: TopolAtom| a@) =~= Seq::<TopolAtomV>::empty());
            assert(bonds@.map_values(|b: TopolBond| b@) =~= Seq::<TopolBondV>::empty());
            assert(pairs@.map_values(|p: TopolPair| p@) =~= Seq::<TopolPairV>::empty());
            assert(constraints@.map_values(|c: TopolConstraint| c@) =~= Seq::<
                TopolConstraintV,
            >::empty());
            assert(angles@.map_values(|a: TopolAngle| a@) =~= Seq::<TopolAngleV>::empty());
            assert(dihedrals@.map_values(|d: TopolDihedral| d@) =~= Seq::<
                TopolDihedralV,
            >::empty());
            assert(exclusions@.map_values(|e: TopolExclusion| e@) =~= Seq::<
                TopolExclusionV,
            >::empty());
            assert((TopolV {
                atomtypes: atomtypes@.map_values(|a: TopolAtomtype| a@),
                moleculetype: moleculetype@,
                nrexcl: nrexcl as int,
                atoms: atoms@.map_values(|a: TopolAtom| a@),
                bonds: bonds@.map_values(|b: TopolBond| b@),
                pairs: pairs@.map_values(|p: TopolPair| p@),
                constraints: constraints@.map_values(|c: TopolConstraint| c@),
                angles: angles@.map_values(|a: TopolAngle| a@),
                dihedrals: dihedrals@.map_values(|d: TopolDihedral| d@),
                exclusions: exclusions@.map_values(|e: TopolExclusion| e@),
            }) == init_topol(mol2@));
        }
        while i < n
            invariant
                0 <= i <= n,
                n == raw@.len(),
                ({
                    let t = TopolV {
                        atomtypes: atomtypes@.map_values(|a: TopolAtomtype| a@),
                        moleculetype: moleculetype@,
                        nrexcl: nrexcl as int,
                        atoms: atoms@.map_values(|a: TopolAtom| a@),
                        bonds: bonds@.map_values(|b: TopolBond| b@),
                        pairs: pairs@.map_values(|p: TopolPair| p@),
                        constraints: constraints@.map_values(|c: TopolConstraint| c@),
                        angles: angles@.map_values(|a: TopolAngle| a@),
                        dihedrals: dihedrals@.map_values(|d: TopolDihedral| d@),
                        exclusions: exclusions@.map_values(|e: TopolExclusion| e@),
                    };
                    &&& spec_itp_fold(glines, 0, st0, gm) == spec_itp_fold(
                        glines,
                        i as int,
                        ParseStV { sec: sec, t: t },
                        gm,
                    )
                    &&& t.wf()
                }),
            decreases n - i,
        {
            let ghost t_before = TopolV {
                atomtypes: atomtypes@.map_values(|a: TopolAtomtype| a@),
                moleculetype: moleculetype@,
                nrexcl: nrexcl as int,
                atoms: atoms@.map_values(|a: TopolAtom| a@),
                bonds: bonds@.map_values(|b: TopolBond| b@),
                pairs: pairs@.map_values(|p: TopolPair| p@),
                constraints: constraints@.map_values(|c: TopolConstraint| c@),
                angles: angles@.map_values(|a: TopolAngle| a@),
                dihedrals: dihedrals@.map_values(|d: TopolDihedral| d@),
                exclusions: exclusions@.map_values(|e: TopolExclusion| e@),
            };
            let ghost st_before = ParseStV { sec: sec, t: t_before };
            let stripped_ref = crate::text::trim(strip_comment(raw[i].as_str()));
            let stripped = String::from_str(stripped_ref);
            let ghost gstripped = crate::text::spec_trim(spec_strip_comment(glines[i as int]));
            proof {
                assert(stripped@ == gstripped);
            }
            if stripped.as_str().unicode_len() == 0 {
                proof {
                    assert(spec_itp_step(st_before, glines[i as int], i as int, gm) == Ok::<
                        ParseStV,
                        GenError,
                    >(st_before));
                }
                i = i + 1;
                continue ;
            }
            match section_header(stripped.as_str()) {
                Some(name) => {
                    sec = section_of_name_exec(name.as_str());
                    proof {
                        assert(spec_itp_step(st_before, glines[i as int], i as int, gm) == Ok::<
                            ParseStV,
                            GenError,
                        >(ParseStV { sec: sec, t: t_before }));
                    }
                },
                None => {
                    let toks = crate::text::split_ws(stripped.as_str());
                    match sec {
                        Section::Atomtypes => {
                            match parse_atomtype_exec(&toks, i) {
                                Ok(v) => {
                                    let ghost prev = atomtypes@.map_values(
                                        |a: TopolAtomtype| a@,
                                    );
                                    atomtypes.push(v);
                                    proof {
                                        assert(atomtypes@.map_values(|a: TopolAtomtype| a@)
                                            =~= prev.push(v@));
                                    }
                                },
                                Err(e) => {
                                    return Err(e);
                                },
                            }
                        },
                        Section::Moleculetype => {
                            if toks.len() < 2 {
                                return Err(GenError::FormatError { line: i });
                            }
                            match parse_funct(&toks[1], i) {
                                Ok(v) => {
                                    moleculetype = toks[0].clone();
                                    nrexcl = v;
                                },
                                Err(e) => {
                                    return Err(e);
                                },
                            }
                        },
                        Section::Atoms => {
                            match parse_topol_atom_exec(&toks, i, mol2) {
                                Ok(v) => {
                                    let ghost prev = atoms@.map_values(|a: TopolAtom| a@);
                                    let ghost gv = v@;
                                    atoms.push(v);
                                    proof {
                                        assert(atoms@.map_values(|a: TopolAtom| a@) =~= prev.push(
                                            gv,
                                        ));
                                        assert forall|x: int| has_nr(prev, x) implies has_nr(
                                            atoms@.map_values(|a: TopolAtom| a@),
                                            x,
                                        ) by {
                                            lemma_has_nr_push(prev, gv, x);
                                        }
                                    }
                                },
                                Err(e) => {
                                    return Err(e);
                                },
                            }
                        },
                        Section::Bonds => {
                            match parse_bond_exec(&toks, i, &atoms) {
                                Ok(v) => {
                                    let ghost prev = bonds@.map_values(|b: TopolBond| b@);
                                    bonds.push(v);
                                    proof {
                                        assert(bonds@.map_values(|b: TopolBond| b@) =~= prev.push(
                                            v@,
                                        ));
                                    }
                                },
                                Err(e) => {
                                    return Err(e);
                                },
                            }
                        },
                        Section::Pairs => {
                            match parse_pair_exec(&toks, i, &atoms) {
                                Ok(v) => {
                                    let ghost prev = pairs@.map_values(|p: TopolPair| p@);
                                    pairs.push(v);
                                    proof {
                                        assert(pairs@.map_values(|p: TopolPair| p@) =~= prev.push(
                                            v@,
                                        ));
                                    }
                                },
                                Err(e) => {
                                    return Err(e);
                                },
                            }
                        },
                        Section::Constraints => {
                            match parse_constraint_exec(&toks, i, &atoms) {
                                Ok(v) => {
                                    let ghost prev = constraints@.map_values(
                                        |c: TopolConstraint| c@,
                                    );
                                    constraints.push(v);
                                    proof {
                                        assert(constraints@.map_values(|c: TopolConstraint| c@)
                                            =~= prev.push(v@));
                                    }
                                },
                                Err(e) => {
                                    return Err(e);
                                },
                            }
                        },
                        Section::Angles => {
                            match parse_angle_exec(&toks, i, &atoms) {
                                Ok(v) => {
                                    let ghost prev = angles@.map_values(|a: TopolAngle| a@);
                                    angles.push(v);
                                    proof {
                                        assert(angles@.map_values(|a: TopolAngle| a@) =~= prev.push(
                                            v@,
                                        ));
                                    }
                                },
                                Err(e) => {
                                    return Err(e);
                                },
                            }
                        },
                        Section::Dihedrals => {
                            match parse_dihedral_exec(&toks, i, &atoms) {
                                Ok(v) => {
                                    let ghost prev = dihedrals@.map_values(
                                        |d: TopolDihedral| d@,
                                    );
                                    dihedrals.push(v);
                                    proof {
                                        assert(dihedrals@.map_values(|d: TopolDihedral| d@)
                                            =~= prev.push(v@));
                                    }
                                },
                                Err(e) => {
                                    return Err(e);
                                },
                            }
                        },
                        Section::Exclusions => {
                            match parse_exclusion_exec(&toks, i, &atoms) {
                                Ok(v) => {
                                    let ghost prev = exclusions@.map_values(
                                        |e: TopolExclusion| e@,
                                    );
                                    let ghost gv = v@;
                                    exclusions.push(v);
                                    proof {
                                        assert(exclusions@.map_values(|e: TopolExclusion| e@)
                                            =~= prev.push(gv));
                                        assert forall|jj: int|
                                            0 <= jj < gv.ex_atoms.len() implies has_nr(
                                            atoms@.map_values(|a: TopolAtom| a@),
                                            #[trigger] gv.ex_atoms[jj],
                                        ) by {
                                            lemma_excl_ids_have_nr(
                                                toks@.map_values(|t: String| t@),
                                                0,
                                                i as int,
                                                atoms@.map_values(|a: TopolAtom| a@),
                                                gv.ex_atoms,
                                                jj,
                                            );
                                        }
                                    }
                                },
                                Err(e) => {
                                    return Err(e);
                                },
                            }
                        },
                        Section::Preamble => {},
                        Section::Other => {},
                    }
                },
            }
            i = i + 1;
        }
        let t = Topol {
            atomtypes,
            moleculetype,
            nrexcl,
            atoms,
            bonds,
            pairs,
            constraints,
            angles,
            dihedrals,
            exclusions,
        };
        proof {
            assert(spec_itp_fold(glines, n as int, ParseStV { sec: sec, t: t@ }, gm) == Ok::<
                TopolV,
                GenError,
            >(t@));
        }
        Ok(t)
    }
}

/// Every id an exclusion line yields references an existing atom.
proof fn lemma_excl_ids_have_nr(
    toks: Seq<Seq<char>>,
    i: int,
    ln: int,
    atoms: Seq<TopolAtomV>,
    ids: Seq<int>,
    j: int,
)
    requires
        spec_parse_excl_ids(toks, i, ln, atoms) == Ok::<Seq<int>, GenError>(ids),
        0 <= j < ids.len(),
    ensures
        has_nr(atoms, ids[j]),
    decreases toks.len() - i,
{
    if 0 <= i < toks.len() {
        let rest = spec_parse_excl_ids(toks, i + 1, ln, atoms)->Ok_0;
        if j > 0 {
            assert(ids[j] == rest[j - 1]);
            lemma_excl_ids_have_nr(toks, i + 1, ln, atoms, rest, j - 1);
        }
    }
}


/// Index of the first topology atom with number `nr`, or -1.
pub open spec fn first_nr_index(atoms: Seq<TopolAtomV>, nr: int) -> int
    decreases atoms.len(),
{
    if atoms.len() == 0 {
        -1
    } else if atoms[0].nr == nr {
        0
    } else {
        let r = first_nr_index(atoms.drop_first(), nr);
        if r < 0 {
            -1
        } else {
            r + 1
        }
    }
}

pub proof fn lemma_first_nr_index_props(atoms: Seq<TopolAtomV>, nr: int)
    ensures
        first_nr_index(atoms, nr) == -1 ==> forall|i: int|
            0 <= i < atoms.len() ==> (#[trigger] atoms[i]).nr != nr,
        first_nr_index(atoms, nr) != -1 ==> {
            let r = first_nr_index(atoms, nr);
            &&& 0 <= r < atoms.len()
            &&& atoms[r].nr == nr
            &&& forall|i: int| 0 <= i < r ==> (#[trigger] atoms[i]).nr != nr
        },
    decreases atoms.len(),
{
    if atoms.len() > 0 && atoms[0].nr != nr {
        lemma_first_nr_index_props(atoms.drop_first(), nr);
        assert(forall|i: int|
            1 <= i < atoms.len() ==> (#[trigger] atoms[i]) == atoms.drop_first()[i - 1]);
    }
}

/// The name a bonded term prints for atom number `nr`: the name of the
/// first topology atom carrying that number.
pub open spec fn spec_nr_name(atoms: Seq<TopolAtomV>, nr: int) -> Seq<char> {
    let r = first_nr_index(atoms, nr);
    if r < 0 {
        Seq::empty()
    } else {
        atoms[r].atom
    }
}

/// Looks up the name of the first atom with the given number.
fn name_of_nr(atoms: &Vec<TopolAtom>, nr: usize) -> (r: String)
    requires
        has_nr(atoms@.map_values(|a: TopolAtom| a@), nr as int),
    ensures
        r@ == spec_nr_name(atoms@.map_values(|a: TopolAtom| a@), nr as int),
{
    let ghost g = atoms@.map_values(|a: TopolAtom| a@);
    let n = atoms.len();
    let mut i: usize = 0;
    proof {
        lemma_first_nr_index_props(g, nr as int);
    }
    while i < n
        invariant
            0 <= i <= n,
            n == atoms@.len(),
            g == atoms@.map_values(|a: TopolAtom| a@),
            has_nr(g, nr as int),
            forall|j: int| 0 <= j < i ==> (#[trigger] g[j]).nr != nr as int,
        decreases n - i,
    {
        if atoms[i].nr == nr {
            proof {
                lemma_first_nr_index_props(g, nr as int);
                assert(g[i as int].nr == nr as int);
                assert(first_nr_index(g, nr as int) == i);
            }
            return atoms[i].atom.clone();
        }
        proof {
            assert(g[i as int] == atoms@[i as int]@);
        }
        i = i + 1;
    }
    proof {
        let j = choose|j: int| 0 <= j < g.len() && (#[trigger] g[j]).nr == nr as int;
        assert(false);
    }
    String::new()
}

/// An optional coefficient as a field list: one field when present.
pub open spec fn opt_field(c: Option<Seq<char>>) -> Seq<Seq<char>> {
    match c {
        Some(x) => seq![x],
        None => Seq::empty(),
    }
}

/// The template line of an atom: name, type, charge, charge group.
pub open spec fn spec_rtp_atom_fields(a: TopolAtomV) -> Seq<char> {
    join_sp(seq![a.atom, a._type, a.charge, a.cgnr])
}

/// The template line of an atom, commented out with its provenance when
/// it belongs to a neighboring residue.
pub open spec fn spec_rtp_atom_line(a: TopolAtomV, exn: Seq<int>, exc: Seq<int>) -> Seq<char> {
    if exn.contains(a.nr) {
        "; "@ + spec_rtp_atom_fields(a) + " ; previous residue"@
    } else if exc.contains(a.nr) {
        "; "@ + spec_rtp_atom_fields(a) + " ; next residue"@
    } else {
        spec_rtp_atom_fields(a)
    }
}

/// The template line of a bond: both atom names, then the coefficients
/// that are present.
pub open spec fn spec_rtp_bond_fields(atoms: Seq<TopolAtomV>, b: TopolBondV) -> Seq<char> {
    join_sp(
        seq![spec_nr_name(atoms, b.ai), spec_nr_name(atoms, b.aj)] + opt_field(b.c0) + opt_field(
            b.c1,
        ),
    )
}

/// The template line of a bond, commented out when both its atoms
/// belong to one neighboring residue.
pub open spec fn spec_rtp_bond_line(
    atoms: Seq<TopolAtomV>,
    b: TopolBondV,
    exn: Seq<int>,
    exc: Seq<int>,
) -> Seq<char> {
    if count_in(exn, bond_ids(b)) >= 2 {
        ";- "@ + spec_rtp_bond_fields(atoms, b)
    } else if count_in(exc, bond_ids(b)) >= 2 {
        ";+ "@ + spec_rtp_bond_fields(atoms, b)
    } else {
        spec_rtp_bond_fields(atoms, b)
    }
}

/// The template line of an angle.
pub open spec fn spec_rtp_angle_line(atoms: Seq<TopolAtomV>, a: TopolAngleV) -> Seq<char> {
    join_sp(
        seq![
            spec_nr_name(atoms, a.ai),
            spec_nr_name(atoms, a.aj),
            spec_nr_name(atoms, a.ak),
        ] + opt_field(a.c0) + opt_field(a.c1),
    )
}

/// The four atom names of a dihedral.
pub open spec fn spec_dihedral_names(atoms: Seq<TopolAtomV>, d: TopolDihedralV) -> Seq<Seq<char>> {
    seq![
        spec_nr_name(atoms, d.ai),
        spec_nr_name(atoms, d.aj),
        spec_nr_name(atoms, d.ak),
        spec_nr_name(atoms, d.al),
    ]
}

/// The template line of a proper-like dihedral. A dihedral tagged with
/// function index 2 keeps its index in the line and carries a warning:
/// some generators use 2 for proper dihedrals although the format
/// reserves it for impropers, and the template may need a manual check.
pub open spec fn spec_rtp_proper_line(atoms: Seq<TopolAtomV>, d: TopolDihedralV) -> Seq<char> {
    if d.funct == 2 {
        join_sp(
            spec_dihedral_names(atoms, d) + seq![spec_dec(d.funct as nat)] + opt_field(d.c0)
                + opt_field(d.c1),
        ) + " ; function index 2: may need manual correction"@
    } else {
        join_sp(
            spec_dihedral_names(atoms, d) + opt_field(d.c0) + opt_field(d.c1) + opt_field(d.c2),
        )
    }
}

/// The template line of an improper dihedral.
pub open spec fn spec_rtp_improper_line(atoms: Seq<TopolAtomV>, d: TopolDihedralV) -> Seq<char> {
    join_sp(spec_dihedral_names(atoms, d) + opt_field(d.c0) + opt_field(d.c1) + opt_field(d.c2))
}

/// A proper-like dihedral: function index 1 or 9, or 2 by the
/// compatibility rule.
pub open spec fn is_proper_funct(funct: int) -> bool {
    funct == 1 || funct == 9 || funct == 2
}

/// Appending one element filters to the old result plus the element
/// when it satisfies the predicate.
pub proof fn lemma_keep_seq_push<T>(s: Seq<T>, p: spec_fn(T) -> bool, x: T)
    ensures
        keep_seq(s.push(x), p) == keep_seq(s, p) + (if p(x) {
            seq![x]
        } else {
            Seq::<T>::empty()
        }),
    decreases s.len(),
{
    if s.len() == 0 {
        assert(s.push(x).drop_first() =~= Seq::<T>::empty());
        assert(s.push(x)[0] == x);
        assert(keep_seq(Seq::<T>::empty(), p) =~= Seq::<T>::empty());
        assert(keep_seq(s, p) =~= Seq::<T>::empty());
        if p(x) {
            assert(keep_seq(s.push(x), p) =~= keep_seq(s, p) + seq![x]);
        } else {
            assert(keep_seq(s.push(x), p) =~= keep_seq(s, p) + Seq::<T>::empty());
        }
    } else {
        assert(s.push(x).drop_first() =~= s.drop_first().push(x));
        lemma_keep_seq_push(s.drop_first(), p, x);
        if p(x) {
            assert(keep_seq(s.push(x), p) =~= keep_seq(s, p) + seq![x]);
        } else {
            assert(keep_seq(s.push(x), p) =~= keep_seq(s, p) + Seq::<T>::empty());
        }
    }
}


pub open spec fn str_opt_view(o: Option<String>) -> Option<Seq<char>> {
    match o {
        Some(s) => Some(s@),
        None => None,
    }
}

fn clone_opt(o: &Option<String>) -> (r: Option<String>)
    ensures
        str_opt_view(r) == str_opt_view(*o),
{
    match o {
        Some(s) => Some(s.clone()),
        None => None,
    }
}

fn rtp_atom_line_exec(a: &TopolAtom, exclude_n: &Vec<usize>, exclude_c: &Vec<usize>) -> (r: String)
    ensures
        r@ == spec_rtp_atom_line(
            a@,
            exclude_n@.map_values(|u: usize| u as int),
            exclude_c@.map_values(|u: usize| u as int),
        ),
{
    let mut toks: Vec<String> = Vec::new();
    toks.push(a.atom.clone());
    toks.push(a._type.clone());
    toks.push(a.charge.clone());
    toks.push(a.cgnr.clone());
    proof {
        assert(toks@.map_values(|t: String| t@) =~~= seq![a@.atom, a@._type, a@.charge, a@.cgnr]);
        crate::boundary::lemma_contains_int(exclude_n@, a.nr);
        crate::boundary::lemma_contains_int(exclude_c@, a.nr);
    }
    let fields = join_tokens(&toks);
    if contains_id(exclude_n, a.nr) {
        let r = String::from_str("; ").concat(fields.as_str()).concat(" ; previous residue");
        proof {
            assert(r@ =~= "; "@ + spec_rtp_atom_fields(a@) + " ; previous residue"@);
        }
        r
    } else if contains_id(exclude_c, a.nr) {
        let r = String::from_str("; ").concat(fields.as_str()).concat(" ; next residue");
        proof {
            assert(r@ =~= "; "@ + spec_rtp_atom_fields(a@) + " ; next residue"@);
        }
        r
    } else {
        fields
    }
}

fn rtp_bond_line_exec(
    atoms: &Vec<TopolAtom>,
    b: &TopolBond,
    exclude_n: &Vec<usize>,
    exclude_c: &Vec<usize>,
) -> (r: String)
    requires
        has_nr(atoms@.map_values(|a: TopolAtom| a@), b.ai as int),
        has_nr(atoms@.map_values(|a: TopolAtom| a@), b.aj as int),
    ensures
        r@ == spec_rtp_bond_line(
            atoms@.map_values(|a: TopolAtom| a@),
            b@,
            exclude_n@.map_values(|u: usize| u as int),
            exclude_c@.map_values(|u: usize| u as int),
        ),
{
    let ghost gatoms = atoms@.map_values(|a: TopolAtom| a@);
    let mut toks: Vec<String> = Vec::new();
    toks.push(name_of_nr(atoms, b.ai));
    toks.push(name_of_nr(atoms, b.aj));
    if let Some(c) = &b.c0 {
        toks.push(c.clone());
    }
    if let Some(c) = &b.c1 {
        toks.push(c.clone());
    }
    proof {
        assert(toks@.map_values(|t: String| t@) =~~= seq![
            spec_nr_name(gatoms, b@.ai),
            spec_nr_name(gatoms, b@.aj),
        ] + opt_field(b@.c0) + opt_field(b@.c1));
    }
    let fields = join_tokens(&toks);
    let mut ids: Vec<usize> = Vec::new();
    ids.push(b.ai);
    ids.push(b.aj);
    proof {
        assert(ids@.map_values(|u: usize| u as int) =~= bond_ids(b@));
    }
    let cn = count_in_exec(exclude_n, &ids);
    let cc = count_in_exec(exclude_c, &ids);
    if cn >= 2 {
        let r = String::from_str(";- ").concat(fields.as_str());
        proof {
            assert(r@ =~= ";- "@ + spec_rtp_bond_fields(gatoms, b@));
        }
        r
    } else if cc >= 2 {
        let r = String::from_str(";+ ").concat(fields.as_str());
        proof {
            assert(r@ =~= ";+ "@ + spec_rtp_bond_fields(gatoms, b@));
        }
        r
    } else {
        fields
    }
}

fn rtp_angle_line_exec(atoms: &Vec<TopolAtom>, a: &TopolAngle) -> (r: String)
    requires
        has_nr(atoms@.map_values(|x: TopolAtom| x@), a.ai as int),
        has_nr(atoms@.map_values(|x: TopolAtom| x@), a.aj as int),
        has_nr(atoms@.map_values(|x: TopolAtom| x@), a.ak as int),
    ensures
        r@ == spec_rtp_angle_line(atoms@.map_values(|x: TopolAtom| x@), a@),
{
    let ghost gatoms = atoms@.map_values(|x: TopolAtom| x@);
    let mut toks: Vec<String> = Vec::new();
    toks.push(name_of_nr(atoms, a.ai));
    toks.push(name_of_nr(atoms, a.aj));
    toks.push(name_of_nr(atoms, a.ak));
    if let Some(c) = &a.c0 {
        toks.push(c.clone());
    }
    if let Some(c) = &a.c1 {
        toks.push(c.clone());
    }
    proof {
        assert(toks@.map_values(|t: String| t@) =~~= seq![
            spec_nr_name(gatoms, a@.ai),
            spec_nr_name(gatoms, a@.aj),
            spec_nr_name(gatoms, a@.ak),
        ] + opt_field(a@.c0) + opt_field(a@.c1));
    }
    join_tokens(&toks)
}

fn rtp_proper_line_exec(atoms: &Vec<TopolAtom>, d: &TopolDihedral) -> (r: String)
    requires
        has_nr(atoms@.map_values(|x: TopolAtom| x@), d.ai as int),
        has_nr(atoms@.map_values(|x: TopolAtom| x@), d.aj as int),
        has_nr(atoms@.map_values(|x: TopolAtom| x@), d.ak as int),
        has_nr(atoms@.map_values(|x: TopolAtom| x@), d.al as int),
        d.funct >= 0,
    ensures
        r@ == spec_rtp_proper_line(atoms@.map_values(|x: TopolAtom| x@), d@),
{
    let ghost gatoms = atoms@.map_values(|x: TopolAtom| x@);
    let mut toks: Vec<String> = Vec::new();
    toks.push(name_of_nr(atoms, d.ai));
    toks.push(name_of_nr(atoms, d.aj));
    toks.push(name_of_nr(atoms, d.ak));
    toks.push(name_of_nr(atoms, d.al));
    if d.funct == 2 {
        toks.push(u64_to_string(d.funct as u64));
        if let Some(c) = &d.c0 {
            toks.push(c.clone());
        }
        if let Some(c) = &d.c1 {
            toks.push(c.clone());
        }
        proof {
            assert(toks@.map_values(|t: String| t@) =~~= spec_dihedral_names(gatoms, d@) + seq![
                spec_dec(d@.funct as nat),
            ] + opt_field(d@.c0) + opt_field(d@.c1));
        }
        let r = join_tokens(&toks).concat(" ; function index 2: may need manual correction");
        proof {
            assert(r@ == spec_rtp_proper_line(gatoms, d@));
        }
        r
    } else {
        if let Some(c) = &d.c0 {
            toks.push(c.clone());
        }
        if let Some(c) = &d.c1 {
            toks.push(c.clone());
        }
        if let Some(c) = &d.c2 {
            toks.push(c.clone());
        }
        proof {
            assert(toks@.map_values(|t: String| t@) =~~= spec_dihedral_names(gatoms, d@)
                + opt_field(d@.c0) + opt_field(d@.c1) + opt_field(d@.c2));
        }
        join_tokens(&toks)
    }
}

fn rtp_improper_line_exec(atoms: &Vec<TopolAtom>, d: &TopolDihedral) -> (r: String)
    requires
        has_nr(atoms@.map_values(|x: TopolAtom| x@), d.ai as int),
        has_nr(atoms@.map_values(|x: TopolAtom| x@), d.aj as int),
        has_nr(atoms@.map_values(|x: TopolAtom| x@), d.ak as int),
        has_nr(atoms@.map_values(|x: TopolAtom| x@), d.al as int),
    ensures
        r@ == spec_rtp_improper_line(atoms@.map_values(|x: TopolAtom| x@), d@),
{
    let ghost gatoms = atoms@.map_values(|x: TopolAtom| x@);
    let mut toks: Vec<String> = Vec::new();
    toks.push(name_of_nr(atoms, d.ai));
    toks.push(name_of_nr(atoms, d.aj));
    toks.push(name_of_nr(atoms, d.ak));
    toks.push(name_of_nr(atoms, d.al));
    if let Some(c) = &d.c0 {
        toks.push(c.clone());
    }
    if let Some(c) = &d.c1 {
        toks.push(c.clone());
    }
    if let Some(c) = &d.c2 {
        toks.push(c.clone());
    }
    proof {
        assert(toks@.map_values(|t: String| t@) =~~= spec_dihedral_names(gatoms, d@) + opt_field(
            d@.c0,
        ) + opt_field(d@.c1) + opt_field(d@.c2));
    }
    join_tokens(&toks)
}


/// The force-field-specific bonded-types header.
pub open spec fn spec_bondedtypes_lines(amber: bool) -> Seq<Seq<char>> {
    if amber {
        seq![
            "[ bondedtypes ]"@,
            "; bonds  angles  dihedrals  impropers all_dihedrals nrexcl HH14 RemoveDih"@,
            "     1       1          9          4        1         3      1     0"@,
            ""@,
        ]
    } else {
        seq![
            "[ bondedtypes ]"@,
            "; bonds  angles  dihedrals  impropers"@,
            "    2       2          1          2"@,
            ""@,
        ]
    }
}

/// The topology's atoms with every name rewritten under the boundary
/// description; nothing else changes.
pub open spec fn spec_rename_topol_atoms(
    b: crate::boundary::BoundaryV,
    atoms: Seq<TopolAtomV>,
) -> Seq<TopolAtomV> {
    atoms.map_values(
        |a: TopolAtomV| TopolAtomV { atom: spec_boundary_name(b, a.nr, a.atom), ..a },
    )
}

/// Every line of the residue template, in order: the bonded-types
/// header, the residue name, then the atoms, bonds, angles, proper
/// dihedrals and impropers, with boundary atoms and bonds commented and
/// pruned terms omitted.
pub open spec fn spec_rtp_lines(t: TopolV, amber: bool, exn: Seq<int>, exc: Seq<int>) -> Seq<
    Seq<char>,
> {
    spec_bondedtypes_lines(amber) + seq![
        "[ "@ + t.moleculetype + " ]"@,
        " [ atoms ]"@,
    ] + t.atoms.map_values(|a: TopolAtomV| spec_rtp_atom_line(a, exn, exc)) + seq![" [ bonds ]"@]
        + t.bonds.map_values(|bd: TopolBondV| spec_rtp_bond_line(t.atoms, bd, exn, exc)) + seq![
        " [ angles ]"@,
    ] + keep_seq(t.angles, |x: TopolAngleV| keep_angle(exn, exc, x)).map_values(
        |x: TopolAngleV| spec_rtp_angle_line(t.atoms, x),
    ) + seq![" [ dihedrals ]"@] + keep_seq(
        t.dihedrals,
        |x: TopolDihedralV| keep_dihedral(exn, exc, x) && is_proper_funct(x.funct),
    ).map_values(|x: TopolDihedralV| spec_rtp_proper_line(t.atoms, x)) + seq![" [ impropers ]"@]
        + keep_seq(t.dihedrals, |x: TopolDihedralV| keep_dihedral(exn, exc, x) && x.funct == 4).map_values(
        |x: TopolDihedralV| spec_rtp_improper_line(t.atoms, x),
    )
}

/// The whole residue template text derived from the renamed topology.
pub open spec fn spec_rtp_content(t: TopolV, amber: bool, exn: Seq<int>, exc: Seq<int>) -> Seq<
    char,
> {
    join_nl(spec_rtp_lines(t, amber, exn, exc))
}

impl Topol {
    /// Derives the single-residue template. The force field must be
    /// named explicitly, because the two conventions disagree on the
    /// boundary bond direction; atom names are rewritten under the
    /// boundary description; a bond is retained when at most one of its
    /// atoms lies in each exclusion set, an angle when at most one of
    /// three, a dihedral when at most two of four; dropped boundary
    /// atoms and bonds stay visible as commented lines.
    #[verifier::loop_isolation(false)]
    #[verifier::rlimit(100)]
    pub fn to_rtp(
        &mut self,
        ff: &str,
        exclude_n: &Vec<usize>,
        exclude_c: &Vec<usize>,
        atom_n: Option<usize>,
        atom_c: Option<usize>,
        n_name: &Option<String>,
        c_name: &Option<String>,
    ) -> (r: Result<String, GenError>)
        requires
            old(self)@.wf(),
        ensures
            ({
                let amber = ff@ == "amber"@;
                let gromos = ff@ == "gromos"@;
                let b = boundary_view(
                    exclude_n@,
                    exclude_c@,
                    atom_n,
                    atom_c,
                    *n_name,
                    *c_name,
                    None,
                    None,
                    None,
                    None,
                );
                let exn = exclude_n@.map_values(|u: usize| u as int);
                let exc = exclude_c@.map_values(|u: usize| u as int);
                if !(amber || gromos) || !b.valid() {
                    final(self)@ == old(self)@ && r == Err::<String, GenError>(
                        GenError::ConfigError,
                    )
                } else {
                    let t1 = TopolV {
                        atoms: spec_rename_topol_atoms(b, old(self)@.atoms),
                        ..old(self)@
                    };
                    &&& final(self)@ == (TopolV {
                        bonds: keep_seq(t1.bonds, |x: TopolBondV| keep_bond(exn, exc, x)),
                        angles: keep_seq(t1.angles, |x: TopolAngleV| keep_angle(exn, exc, x)),
                        dihedrals: keep_seq(
                            t1.dihedrals,
                            |x: TopolDihedralV| keep_dihedral(exn, exc, x),
                        ),
                        ..t1
                    })
                    &&& r matches Ok(s) && s@ == spec_rtp_content(t1, amber, exn, exc)
                    &&& final(self)@.wf()
                }
            }),
    {
        let amber = str_eq(ff, "amber");
        let gromos = str_eq(ff, "gromos");
        if !(amber || gromos) {
            return Err(GenError::ConfigError);
        }
        let valid = crate::boundary::check_boundary(
            exclude_n,
            exclude_c,
            atom_n,
            atom_c,
            n_name,
            c_name,
            None,
            None,
            &None,
            &None,
        );
        if !valid {
            return Err(GenError::ConfigError);
        }
        let ghost t0 = self@;
        let ghost b = boundary_view(
            exclude_n@,
            exclude_c@,
            atom_n,
            atom_c,
            *n_name,
            *c_name,
            None,
            None,
            None,
            None,
        );
        let ghost exn = exclude_n@.map_values(|u: usize| u as int);
        let ghost exc = exclude_c@.map_values(|u: usize| u as int);
        // rename the atoms
        let na = self.atoms.len();
        let mut new_atoms: Vec<TopolAtom> = Vec::new();
        let mut i: usize = 0;
        while i < na
            invariant
                0 <= i <= na,
                new_atoms@.len() == i,
                forall|j: int|
                    0 <= j < i ==> (#[trigger] new_atoms@[j])@ == (TopolAtomV {
                        atom: spec_boundary_name(b, t0.atoms[j].nr, t0.atoms[j].atom),
                        ..t0.atoms[j]
                    }),
            decreases na - i,
        {
            let a = &self.atoms[i];
            proof {
                assert(t0.atoms[i as int] == self.atoms@[i as int]@);
            }
            let name = crate::boundary::boundary_rename_name(
                exclude_n,
                exclude_c,
                atom_n,
                atom_c,
                n_name,
                c_name,
                None,
                None,
                &None,
                &None,
                a.nr,
                &a.atom,
            );
            new_atoms.push(
                TopolAtom {
                    nr: a.nr,
                    _type: a._type.clone(),
                    resnr: a.resnr.clone(),
                    resname: a.resname.clone(),
                    atom: name,
                    cgnr: a.cgnr.clone(),
                    charge: a.charge.clone(),
                    mass: clone_opt(&a.mass),
                },
            );
            i = i + 1;
        }
        self.atoms = new_atoms;
        proof {
            assert(self@.atoms =~= spec_rename_topol_atoms(b, t0.atoms));
            assert forall|x: int| has_nr(t0.atoms, x) implies has_nr(self@.atoms, x) by {
                let j = choose|j: int| 0 <= j < t0.atoms.len() && (#[trigger] t0.atoms[j]).nr == x;
                assert(self@.atoms[j].nr == x);
            }
        }
        let ghost t1 = TopolV { atoms: spec_rename_topol_atoms(b, t0.atoms), ..t0 };
        proof {
            assert(self@ == t1);
        }
        // render
        let mut lines: Vec<String> = Vec::new();
        if amber {
            lines.push(String::from_str("[ bondedtypes ]"));
            lines.push(
                String::from_str(
                    "; bonds  angles  dihedrals  impropers all_dihedrals nrexcl HH14 RemoveDih",
                ),
            );
            lines.push(
                String::from_str("     1       1          9          4        1         3      1     0"),
            );
            lines.push(String::from_str(""));
        } else {
            lines.push(String::from_str("[ bondedtypes ]"));
            lines.push(String::from_str("; bonds  angles  dihedrals  impropers"));
            lines.push(String::from_str("    2       2          1          2"));
            lines.push(String::from_str(""));
        }
        lines.push(
            String::from_str("[ ").concat(self.moleculetype.as_str()).concat(" ]"),
        );
        lines.push(String::from_str(" [ atoms ]"));
        proof {
            assert(lines@.map_values(|t: String| t@) =~~= spec_bondedtypes_lines(amber) + seq![
                "[ "@ + t1.moleculetype + " ]"@,
                " [ atoms ]"@,
            ]);
        }
        let ghost pre_atoms = lines@.map_values(|t: String| t@);
        let ghost atom_lines = t1.atoms.map_values(
            |a: TopolAtomV| spec_rtp_atom_line(a, exn, exc),
        );
        let mut i: usize = 0;
        while i < na
            invariant
                0 <= i <= na,
                na == self.atoms.len(),
                self@ == t1,
                lines@.map_values(|t: String| t@) =~= pre_atoms + atom_lines.take(i as int),
            decreases na - i,
        {
            let line = rtp_atom_line_exec(&self.atoms[i], exclude_n, exclude_c);
            proof {
                assert(t1.atoms[i as int] == self.atoms@[i as int]@);
                assert(line@ == atom_lines[i as int]);
                assert((lines@ + seq![line]).map_values(|t: String| t@) =~= lines@.map_values(
                    |t: String| t@,
                ) + seq![line@]);
                assert(atom_lines.take(i as int).push(atom_lines[i as int]) =~= atom_lines.take(
                    i as int + 1,
                ));
                assert((pre_atoms + atom_lines.take(i as int)) + seq![line@] =~= pre_atoms
                    + atom_lines.take(i as int + 1));
            }
            lines.push(line);
            i = i + 1;
        }
        lines.push(String::from_str(" [ bonds ]"));
        proof {
            assert(atom_lines.take(na as int) =~= atom_lines);
            assert(lines@.map_values(|t: String| t@) =~= pre_atoms + atom_lines + seq![
                " [ bonds ]"@,
            ]);
        }
        let ghost pre_bonds = lines@.map_values(|t: String| t@);
        let ghost bond_lines = t1.bonds.map_values(
            |bd: TopolBondV| spec_rtp_bond_line(t1.atoms, bd, exn, exc),
        );
        let nb = self.bonds.len();
        let mut kept_bonds: Vec<TopolBond> = Vec::new();
        let mut i: usize = 0;
        while i < nb
            invariant
                0 <= i <= nb,
                nb == self.bonds.len(),
                self@ == t1,
                t1.wf(),
                lines@.map_values(|t: String| t@) =~= pre_bonds + bond_lines.take(i as int),
                kept_bonds@.map_values(|x: TopolBond| x@) =~= keep_seq(
                    t1.bonds.take(i as int),
                    |x: TopolBondV| keep_bond(exn, exc, x),
                ),
            decreases nb - i,
        {
            let bnd = &self.bonds[i];
            proof {
                assert(t1.bonds[i as int] == self.bonds@[i as int]@);
            }
            let line = rtp_bond_line_exec(&self.atoms, bnd, exclude_n, exclude_c);
            proof {
                assert(line@ == bond_lines[i as int]);
                assert((lines@ + seq![line]).map_values(|t: String| t@) =~= lines@.map_values(
                    |t: String| t@,
                ) + seq![line@]);
                assert(bond_lines.take(i as int).push(bond_lines[i as int]) =~= bond_lines.take(
                    i as int + 1,
                ));
                assert((pre_bonds + bond_lines.take(i as int)) + seq![line@] =~= pre_bonds
                    + bond_lines.take(i as int + 1));
            }
            lines.push(line);
            let mut ids: Vec<usize> = Vec::new();
            ids.push(bnd.ai);
            ids.push(bnd.aj);
            proof {
                assert(ids@.map_values(|u: usize| u as int) =~= bond_ids(t1.bonds[i as int]));
            }
            let cn = count_in_exec(exclude_n, &ids);
            let cc = count_in_exec(exclude_c, &ids);
            proof {
                lemma_keep_seq_push(
                    t1.bonds.take(i as int),
                    |x: TopolBondV| keep_bond(exn, exc, x),
                    t1.bonds[i as int],
                );
                assert(t1.bonds.take(i as int).push(t1.bonds[i as int]) =~= t1.bonds.take(
                    i as int + 1,
                ));
            }
            if cn <= 1 && cc <= 1 {
                let nbnd = TopolBond {
                    ai: bnd.ai,
                    aj: bnd.aj,
                    funct: bnd.funct,
                    c0: clone_opt(&bnd.c0),
                    c1: clone_opt(&bnd.c1),
                };
                proof {
                    assert(nbnd@ == t1.bonds[i as int]);
                    assert((kept_bonds@ + seq![nbnd]).map_values(|x: TopolBond| x@)
                        =~= kept_bonds@.map_values(|x: TopolBond| x@) + seq![nbnd@]);
                }
                kept_bonds.push(nbnd);
            }
            i = i + 1;
        }
        lines.push(String::from_str(" [ angles ]"));
        proof {
            assert(bond_lines.take(nb as int) =~= bond_lines);
            assert(t1.bonds.take(nb as int) =~= t1.bonds);
            assert(lines@.map_values(|t: String| t@) =~= pre_bonds + bond_lines + seq![
                " [ angles ]"@,
            ]);
        }
        let ghost pre_angles = lines@.map_values(|t: String| t@);
        let ghost kept_angle_seq = keep_seq(t1.angles, |x: TopolAngleV| keep_angle(exn, exc, x));
        let ghost angle_lines = kept_angle_seq.map_values(
            |x: TopolAngleV| spec_rtp_angle_line(t1.atoms, x),
        );
        let nang = self.angles.len();
        let mut kept_angles: Vec<TopolAngle> = Vec::new();
        let mut i: usize = 0;
        while i < nang
            invariant
                0 <= i <= nang,
                nang == self.angles.len(),
                self@ == t1,
                t1.wf(),
                kept_angles@.map_values(|x: TopolAngle| x@) =~= keep_seq(
                    t1.angles.take(i as int),
                    |x: TopolAngleV| keep_angle(exn, exc, x),
                ),
                lines@.map_values(|t: String| t@) =~= pre_angles + keep_seq(
                    t1.angles.take(i as int),
                    |x: TopolAngleV| keep_angle(exn, exc, x),
                ).map_values(|x: TopolAngleV| spec_rtp_angle_line(t1.atoms, x)),
            decreases nang - i,
        {
            let ang = &self.angles[i];
            proof {
                assert(t1.angles[i as int] == self.angles@[i as int]@);
                lemma_keep_seq_push(
                    t1.angles.take(i as int),
                    |x: TopolAngleV| keep_angle(exn, exc, x),
                    t1.angles[i as int],
                );
                assert(t1.angles.take(i as int).push(t1.angles[i as int]) =~= t1.angles.take(
                    i as int + 1,
                ));
            }
            let mut ids: Vec<usize> = Vec::new();
            ids.push(ang.ai);
            ids.push(ang.aj);
            ids.push(ang.ak);
            proof {
                assert(ids@.map_values(|u: usize| u as int) =~= angle_ids(t1.angles[i as int]));
            }
            let cn = count_in_exec(exclude_n, &ids);
            let cc = count_in_exec(exclude_c, &ids);
            if cn <= 1 && cc <= 1 {
                let line = rtp_angle_line_exec(&self.atoms, ang);
                let nang2 = TopolAngle {
                    ai: ang.ai,
                    aj: ang.aj,
                    ak: ang.ak,
                    funct: ang.funct,
                    c0: clone_opt(&ang.c0),
                    c1: clone_opt(&ang.c1),
                };
                proof {
                    assert(nang2@ == t1.angles[i as int]);
                    assert((kept_angles@ + seq![nang2]).map_values(|x: TopolAngle| x@)
                        =~= kept_angles@.map_values(|x: TopolAngle| x@) + seq![nang2@]);
                    assert(line@ == spec_rtp_angle_line(t1.atoms, t1.angles[i as int]));
                    assert((lines@ + seq![line]).map_values(|t: String| t@) =~= lines@.map_values(
                        |t: String| t@,
                    ) + seq![line@]);
                    assert(keep_seq(
                        t1.angles.take(i as int + 1),
                        |x: TopolAngleV| keep_angle(exn, exc, x),
                    ).map_values(|x: TopolAngleV| spec_rtp_angle_line(t1.atoms, x)) =~= keep_seq(
                        t1.angles.take(i as int),
                        |x: TopolAngleV| keep_angle(exn, exc, x),
                    ).map_values(|x: TopolAngleV| spec_rtp_angle_line(t1.atoms, x)) + seq![line@]);
                    assert((pre_angles + keep_seq(
                        t1.angles.take(i as int),
                        |x: TopolAngleV| keep_angle(exn, exc, x),
                    ).map_values(|x: TopolAngleV| spec_rtp_angle_line(t1.atoms, x))) + seq![line@]
                        =~= pre_angles + keep_seq(
                        t1.angles.take(i as int + 1),
                        |x: TopolAngleV| keep_angle(exn, exc, x),
                    ).map_values(|x: TopolAngleV| spec_rtp_angle_line(t1.atoms, x)));
                    assert(keep_seq(
                        t1.angles.take(i as int + 1),
                        |x: TopolAngleV| keep_angle(exn, exc, x),
                    ) =~= keep_seq(
                        t1.angles.take(i as int),
                        |x: TopolAngleV| keep_angle(exn, exc, x),
                    ).push(t1.angles[i as int]));
                }
                lines.push(line);
                kept_angles.push(nang2);
            } else {
                proof {
                    assert(keep_seq(
                        t1.angles.take(i as int + 1),
                        |x: TopolAngleV| keep_angle(exn, exc, x),
                    ) =~= keep_seq(
                        t1.angles.take(i as int),
                        |x: TopolAngleV| keep_angle(exn, exc, x),
                    ));
                }
            }
            i = i + 1;
        }
        lines.push(String::from_str(" [ dihedrals ]"));
        proof {
            assert(t1.angles.take(nang as int) =~= t1.angles);
            assert(lines@.map_values(|t: String| t@) =~= pre_angles + angle_lines + seq![
                " [ dihedrals ]"@,
            ]);
        }
        let ghost pre_propers = lines@.map_values(|t: String| t@);
        let ghost proper_lines = keep_seq(
            t1.dihedrals,
            |x: TopolDihedralV| keep_dihedral(exn, exc, x) && is_proper_funct(x.funct),
        ).map_values(|x: TopolDihedralV| spec_rtp_proper_line(t1.atoms, x));
        let nd = self.dihedrals.len();
        let mut i: usize = 0;
        while i < nd
            invariant
                0 <= i <= nd,
                nd == self.dihedrals.len(),
                self@ == t1,
                t1.wf(),
                lines@.map_values(|t: String| t@) =~= pre_propers + keep_seq(
                    t1.dihedrals.take(i as int),
                    |x: TopolDihedralV| keep_dihedral(exn, exc, x) && is_proper_funct(x.funct),
                ).map_values(|x: TopolDihedralV| spec_rtp_proper_line(t1.atoms, x)),
            decreases nd - i,
        {
            let dih = &self.dihedrals[i];
            proof {
                assert(t1.dihedrals[i as int] == self.dihedrals@[i as int]@);
                lemma_keep_seq_push(
                    t1.dihedrals.take(i as int),
                    |x: TopolDihedralV| keep_dihedral(exn, exc, x) && is_proper_funct(x.funct),
                    t1.dihedrals[i as int],
                );
                assert(t1.dihedrals.take(i as int).push(t1.dihedrals[i as int])
                    =~= t1.dihedrals.take(i as int + 1));
            }
            let mut ids: Vec<usize> = Vec::new();
            ids.push(dih.ai);
            ids.push(dih.aj);
            ids.push(dih.ak);
            ids.push(dih.al);
            proof {
                assert(ids@.map_values(|u: usize| u as int) =~= dihedral_ids(
                    t1.dihedrals[i as int],
                ));
            }
            let cn = count_in_exec(exclude_n, &ids);
            let cc = count_in_exec(exclude_c, &ids);
            let proper = dih.funct == 1 || dih.funct == 9 || dih.funct == 2;
            if cn <= 2 && cc <= 2 && proper {
                let line = rtp_proper_line_exec(&self.atoms, dih);
                proof {
                    assert(line@ == spec_rtp_proper_line(t1.atoms, t1.dihedrals[i as int]));
                    assert((lines@ + seq![line]).map_values(|t: String| t@) =~= lines@.map_values(
                        |t: String| t@,
                    ) + seq![line@]);
                    assert(keep_seq(
                        t1.dihedrals.take(i as int + 1),
                        |x: TopolDihedralV| keep_dihedral(exn, exc, x) && is_proper_funct(x.funct),
                    ).map_values(|x: TopolDihedralV| spec_rtp_proper_line(t1.atoms, x))
                        =~= keep_seq(
                        t1.dihedrals.take(i as int),
                        |x: TopolDihedralV| keep_dihedral(exn, exc, x) && is_proper_funct(x.funct),
                    ).map_values(|x: TopolDihedralV| spec_rtp_proper_line(t1.atoms, x)) + seq![
                        line@,
                    ]);
                    assert((pre_propers + keep_seq(
                        t1.dihedrals.take(i as int),
                        |x: TopolDihedralV| keep_dihedral(exn, exc, x) && is_proper_funct(x.funct),
                    ).map_values(|x: TopolDihedralV| spec_rtp_proper_line(t1.atoms, x))) + seq![
                        line@,
                    ] =~= pre_propers + keep_seq(
                        t1.dihedrals.take(i as int + 1),
                        |x: TopolDihedralV| keep_dihedral(exn, exc, x) && is_proper_funct(x.funct),
                    ).map_values(|x: TopolDihedralV| spec_rtp_proper_line(t1.atoms, x)));
                }
                lines.push(line);
            } else {
                proof {
                    assert(keep_seq(
                        t1.dihedrals.take(i as int + 1),
                        |x: TopolDihedralV| keep_dihedral(exn, exc, x) && is_proper_funct(x.funct),
                    ).map_values(|x: TopolDihedralV| spec_rtp_proper_line(t1.atoms, x))
                        =~= keep_seq(
                        t1.dihedrals.take(i as int),
                        |x: TopolDihedralV| keep_dihedral(exn, exc, x) && is_proper_funct(x.funct),
                    ).map_values(|x: TopolDihedralV| spec_rtp_proper_line(t1.atoms, x)));
                }
            }
            i = i + 1;
        }
        lines.push(String::from_str(" [ impropers ]"));
        proof {
            assert(t1.dihedrals.take(nd as int) =~= t1.dihedrals);
            assert(lines@.map_values(|t: String| t@) =~= pre_propers + proper_lines + seq![
                " [ impropers ]"@,
            ]);
        }
        let ghost pre_impropers = lines@.map_values(|t: String| t@);
        let ghost improper_lines = keep_seq(
            t1.dihedrals,
            |x: TopolDihedralV| keep_dihedral(exn, exc, x) && x.funct == 4,
        ).map_values(|x: TopolDihedralV| spec_rtp_improper_line(t1.atoms, x));
        let mut kept_dihedrals: Vec<TopolDihedral> = Vec::new();
        let mut i: usize = 0;
        while i < nd
            invariant
                0 <= i <= nd,
                nd == self.dihedrals.len(),
                self@ == t1,
                t1.wf(),
                kept_dihedrals@.map_values(|x: TopolDihedral| x@) =~= keep_seq(
                    t1.dihedrals.take(i as int),
                    |x: TopolDihedralV| keep_dihedral(exn, exc, x),
                ),
                lines@.map_values(|t: String| t@) =~= pre_impropers + keep_seq(
                    t1.dihedrals.take(i as int),
                    |x: TopolDihedralV| keep_dihedral(exn, exc, x) && x.funct == 4,
                ).map_values(|x: TopolDihedralV| spec_rtp_improper_line(t1.atoms, x)),
            decreases nd - i,
        {
            let dih = &self.dihedrals[i];
            proof {
                assert(t1.dihedrals[i as int] == self.dihedrals@[i as int]@);
                lemma_keep_seq_push(
                    t1.dihedrals.take(i as int),
                    |x: TopolDihedralV| keep_dihedral(exn, exc, x) && x.funct == 4,
                    t1.dihedrals[i as int],
                );
                lemma_keep_seq_push(
                    t1.dihedrals.take(i as int),
                    |x: TopolDihedralV| keep_dihedral(exn, exc, x),
                    t1.dihedrals[i as int],
                );
                assert(t1.dihedrals.take(i as int).push(t1.dihedrals[i as int])
                    =~= t1.dihedrals.take(i as int + 1));
            }
            let mut ids: Vec<usize> = Vec::new();
            ids.push(dih.ai);
            ids.push(dih.aj);
            ids.push(dih.ak);
            ids.push(dih.al);
            proof {
                assert(ids@.map_values(|u: usize| u as int) =~= dihedral_ids(
                    t1.dihedrals[i as int],
                ));
            }
            let cn = count_in_exec(exclude_n, &ids);
            let cc = count_in_exec(exclude_c, &ids);
            if cn <= 2 && cc <= 2 {
                let nd2 = TopolDihedral {
                    ai: dih.ai,
                    aj: dih.aj,
                    ak: dih.ak,
                    al: dih.al,
                    funct: dih.funct,
                    c0: clone_opt(&dih.c0),
                    c1: clone_opt(&dih.c1),
                    c2: clone_opt(&dih.c2),
                };
                proof {
                    assert(nd2@ == t1.dihedrals[i as int]);
                    assert((kept_dihedrals@ + seq![nd2]).map_values(|x: TopolDihedral| x@)
                        =~= kept_dihedrals@.map_values(|x: TopolDihedral| x@) + seq![nd2@]);
                }
                kept_dihedrals.push(nd2);
                if dih.funct == 4 {
                    let line = rtp_improper_line_exec(&self.atoms, dih);
                    proof {
                        assert(line@ == spec_rtp_improper_line(t1.atoms, t1.dihedrals[i as int]));
                        assert((lines@ + seq![line]).map_values(|t: String| t@)
                            =~= lines@.map_values(|t: String| t@) + seq![line@]);
                        assert(keep_seq(
                            t1.dihedrals.take(i as int + 1),
                            |x: TopolDihedralV| keep_dihedral(exn, exc, x) && x.funct == 4,
                        ).map_values(|x: TopolDihedralV| spec_rtp_improper_line(t1.atoms, x))
                            =~= keep_seq(
                            t1.dihedrals.take(i as int),
                            |x: TopolDihedralV| keep_dihedral(exn, exc, x) && x.funct == 4,
                        ).map_values(|x: TopolDihedralV| spec_rtp_improper_line(t1.atoms, x))
                            + seq![line@]);
                        assert((pre_impropers + keep_seq(
                            t1.dihedrals.take(i as int),
                            |x: TopolDihedralV| keep_dihedral(exn, exc, x) && x.funct == 4,
                        ).map_values(|x: TopolDihedralV| spec_rtp_improper_line(t1.atoms, x)))
                            + seq![line@] =~= pre_impropers + keep_seq(
                            t1.dihedrals.take(i as int + 1),
                            |x: TopolDihedralV| keep_dihedral(exn, exc, x) && x.funct == 4,
                        ).map_values(|x: TopolDihedralV| spec_rtp_improper_line(t1.atoms, x)));
                    }
                    lines.push(line);
                } else {
                    proof {
                        assert(keep_seq(
                            t1.dihedrals.take(i as int + 1),
                            |x: TopolDihedralV| keep_dihedral(exn, exc, x) && x.funct == 4,
                        ) =~= keep_seq(
                            t1.dihedrals.take(i as int),
                            |x: TopolDihedralV| keep_dihedral(exn, exc, x) && x.funct == 4,
                        ));
                    }
                }
            } else {
                proof {
                    assert(keep_seq(
                        t1.dihedrals.take(i as int + 1),
                        |x: TopolDihedralV| keep_dihedral(exn, exc, x) && x.funct == 4,
                    ) =~= keep_seq(
                        t1.dihedrals.take(i as int),
                        |x: TopolDihedralV| keep_dihedral(exn, exc, x) && x.funct == 4,
                    ));
                    assert(keep_seq(
                        t1.dihedrals.take(i as int + 1),
                        |x: TopolDihedralV| keep_dihedral(exn, exc, x),
                    ) =~= keep_seq(
                        t1.dihedrals.take(i as int),
                        |x: TopolDihedralV| keep_dihedral(exn, exc, x),
                    ));
                }
            }
            i = i + 1;
        }
        self.bonds = kept_bonds;
        self.angles = kept_angles;
        self.dihedrals = kept_dihedrals;
        let content = join_lines(&lines);
        proof {
            assert(t1.dihedrals.take(nd as int) =~= t1.dihedrals);
            assert(lines@.map_values(|t: String| t@) =~= spec_rtp_lines(t1, amber, exn, exc));
            assert(content@ == spec_rtp_content(t1, amber, exn, exc));
            assert(self@ == (TopolV {
                bonds: keep_seq(t1.bonds, |x: TopolBondV| keep_bond(exn, exc, x)),
                angles: keep_seq(t1.angles, |x: TopolAngleV| keep_angle(exn, exc, x)),
                dihedrals: keep_seq(t1.dihedrals, |x: TopolDihedralV| keep_dihedral(exn, exc, x)),
                ..t1
            }));
            assert forall|k: int| 0 <= k < self@.bonds.len() implies has_nr(
                self@.atoms,
                (#[trigger] self@.bonds[k]).ai,
            ) && has_nr(self@.atoms, self@.bonds[k].aj) && self@.bonds[k].funct >= 0 by {
                let b = self@.bonds[k];
                assert(self@.bonds.contains(b));
                lemma_keep_seq_contains(t1.bonds, |x: TopolBondV| keep_bond(exn, exc, x), b);
                let j = choose|j: int| 0 <= j < t1.bonds.len() && t1.bonds[j] == b;
                assert(t0.bonds[j] == b);
            }
            assert forall|k: int| 0 <= k < self@.angles.len() implies has_nr(
                self@.atoms,
                (#[trigger] self@.angles[k]).ai,
            ) && has_nr(self@.atoms, self@.angles[k].aj) && has_nr(
                self@.atoms,
                self@.angles[k].ak,
            ) && self@.angles[k].funct >= 0 by {
                let a = self@.angles[k];
                assert(self@.angles.contains(a));
                lemma_keep_seq_contains(t1.angles, |x: TopolAngleV| keep_angle(exn, exc, x), a);
                let j = choose|j: int| 0 <= j < t1.angles.len() && t1.angles[j] == a;
                assert(t0.angles[j] == a);
            }
            assert forall|k: int| 0 <= k < self@.dihedrals.len() implies has_nr(
                self@.atoms,
                (#[trigger] self@.dihedrals[k]).ai,
            ) && has_nr(self@.atoms, self@.dihedrals[k].aj) && has_nr(
                self@.atoms,
                self@.dihedrals[k].ak,
            ) && has_nr(self@.atoms, self@.dihedrals[k].al) && self@.dihedrals[k].funct >= 0 by {
                let d = self@.dihedrals[k];
                assert(self@.dihedrals.contains(d));
                lemma_keep_seq_contains(
                    t1.dihedrals,
                    |x: TopolDihedralV| keep_dihedral(exn, exc, x),
                    d,
                );
                let j = choose|j: int| 0 <= j < t1.dihedrals.len() && t1.dihedrals[j] == d;
                assert(t0.dihedrals[j] == d);
            }
            assert forall|k: int| 0 <= k < self@.atoms.len() implies (#[trigger] self@.atoms[
            k]).nr >= 1 by {
                assert(self@.atoms[k].nr == t0.atoms[k].nr);
            }
            assert(self@.wf());
        }
        Ok(content)
    }
}

} // verus!
