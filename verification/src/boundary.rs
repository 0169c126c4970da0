//! Residue-boundary renaming: atoms of the previous or next residue get
//! a "-" or "+" mark on their name, the designated connector atoms get
//! their override names, and the atoms of this residue adjacent to a
//! connector may be renamed outright. Reapplying the pass changes
//! nothing: an existing mark is stripped before a mark is added.

use vstd::prelude::*;
use vstd::string::StrSliceExecFns;
use vstd::string::StringExecFns;

use crate::mol2::AtomV;

verus! {

/// The boundary description, at the specification level: the two
/// boundary sets, their connectors with override names, and the optional
/// overrides for the atoms of this residue adjacent to a connector.
pub ghost struct BoundaryV {
    pub exclude_n: Seq<int>,
    pub exclude_c: Seq<int>,
    pub atom_n: Option<int>,
    pub atom_c: Option<int>,
    pub n_name: Option<Seq<char>>,
    pub c_name: Option<Seq<char>>,
    pub atom_adjn: Option<int>,
    pub atom_adjc: Option<int>,
    pub adjn_name: Option<Seq<char>>,
    pub adjc_name: Option<Seq<char>>,
}

impl BoundaryV {
    /// Each given connector lies in its boundary set and has an override
    /// name; each adjacent-connector id has one too.
    pub open spec fn valid(self) -> bool {
        &&& (self.atom_n is Some ==> self.exclude_n.contains(self.atom_n.unwrap())
            && self.n_name is Some)
        &&& (self.atom_c is Some ==> self.exclude_c.contains(self.atom_c.unwrap())
            && self.c_name is Some)
        &&& (self.atom_adjn is Some ==> self.adjn_name is Some)
        &&& (self.atom_adjc is Some ==> self.adjc_name is Some)
    }
}

/// A name with one leading boundary mark removed, if it carries one.
pub open spec fn strip_mark(name: Seq<char>) -> Seq<char> {
    if name.len() > 0 && (name[0] == '-' || name[0] == '+') {
        name.drop_first()
    } else {
        name
    }
}

/// The renamed form of one atom name under the boundary description.
pub open spec fn spec_boundary_name(b: BoundaryV, id: int, name: Seq<char>) -> Seq<char> {
    if b.atom_adjn is Some && b.atom_adjn.unwrap() == id {
        b.adjn_name.unwrap()
    } else if b.atom_adjc is Some && b.atom_adjc.unwrap() == id {
        b.adjc_name.unwrap()
    } else if b.exclude_n.contains(id) {
        if b.atom_n is Some && b.atom_n.unwrap() == id {
            b.n_name.unwrap()
        } else {
            seq!['-'] + strip_mark(name)
        }
    } else if b.exclude_c.contains(id) {
        if b.atom_c is Some && b.atom_c.unwrap() == id {
            b.c_name.unwrap()
        } else {
            seq!['+'] + strip_mark(name)
        }
    } else {
        name
    }
}

/// Renaming one name twice gives the same name as renaming it once.
pub proof fn lemma_boundary_name_idempotent(b: BoundaryV, id: int, name: Seq<char>)
    ensures
        spec_boundary_name(b, id, spec_boundary_name(b, id, name)) == spec_boundary_name(
            b,
            id,
            name,
        ),
{
    let once = spec_boundary_name(b, id, name);
    if !(b.atom_adjn is Some && b.atom_adjn.unwrap() == id) && !(b.atom_adjc is Some
        && b.atom_adjc.unwrap() == id) {
        if b.exclude_n.contains(id) && !(b.atom_n is Some && b.atom_n.unwrap() == id) {
            assert((seq!['-'] + strip_mark(name)).drop_first() =~= strip_mark(name));
        } else if !b.exclude_n.contains(id) && b.exclude_c.contains(id) && !(b.atom_c is Some
            && b.atom_c.unwrap() == id) {
            assert((seq!['+'] + strip_mark(name)).drop_first() =~= strip_mark(name));
        }
    }
}

/// The atom sequence with every name renamed under the boundary
/// description; nothing else changes.
pub open spec fn spec_rename_atoms(b: BoundaryV, atoms: Seq<AtomV>) -> Seq<AtomV> {
    atoms.map_values(
        |a: AtomV|
            AtomV {
                atom_name: spec_boundary_name(b, a.atom_id, a.atom_name),
                ..a
            },
    )
}

/// Renaming a whole atom list twice gives the same list as renaming it
/// once.
pub proof fn lemma_rename_atoms_idempotent(b: BoundaryV, atoms: Seq<AtomV>)
    ensures
        spec_rename_atoms(b, spec_rename_atoms(b, atoms)) == spec_rename_atoms(b, atoms),
{
    let once = spec_rename_atoms(b, atoms);
    let twice = spec_rename_atoms(b, once);
    assert forall|k: int| 0 <= k < atoms.len() implies twice[k] == once[k] by {
        lemma_boundary_name_idempotent(b, atoms[k].atom_id, atoms[k].atom_name);
    }
    assert(twice =~= once);
}


/// The specification-level boundary description read off the executable
/// arguments.
pub open spec fn boundary_view(
    exclude_n: Seq<usize>,
    exclude_c: Seq<usize>,
    atom_n: Option<usize>,
    atom_c: Option<usize>,
    n_name: Option<String>,
    c_name: Option<String>,
    atom_adjn: Option<usize>,
    atom_adjc: Option<usize>,
    adjn_name: Option<String>,
    adjc_name: Option<String>,
) -> BoundaryV {
    BoundaryV {
        exclude_n: exclude_n.map_values(|u: usize| u as int),
        exclude_c: exclude_c.map_values(|u: usize| u as int),
        atom_n: match atom_n {
            Some(v) => Some(v as int),
            None => None,
        },
        atom_c: match atom_c {
            Some(v) => Some(v as int),
            None => None,
        },
        n_name: match n_name {
            Some(s) => Some(s@),
            None => None,
        },
        c_name: match c_name {
            Some(s) => Some(s@),
            None => None,
        },
        atom_adjn: match atom_adjn {
            Some(v) => Some(v as int),
            None => None,
        },
        atom_adjc: match atom_adjc {
            Some(v) => Some(v as int),
            None => None,
        },
        adjn_name: match adjn_name {
            Some(s) => Some(s@),
            None => None,
        },
        adjc_name: match adjc_name {
            Some(s) => Some(s@),
            None => None,
        },
    }
}

/// An id list contains a usize exactly when its integer image contains
/// the integer image of the usize.
pub proof fn lemma_contains_int(v: Seq<usize>, x: usize)
    ensures
        v.contains(x) == v.map_values(|u: usize| u as int).contains(x as int),
{
    let m = v.map_values(|u: usize| u as int);
    if v.contains(x) {
        let i = choose|i: int| 0 <= i < v.len() && v[i] == x;
        assert(m[i] == x as int);
    }
    if m.contains(x as int) {
        let i = choose|i: int| 0 <= i < m.len() && m[i] == x as int;
        assert(v[i] as int == x as int);
        assert(v[i] == x);
    }
}

/// Checks the boundary invariants: each given connector lies in its
/// boundary set and has an override name.
pub fn check_boundary(
    exclude_n: &Vec<usize>,
    exclude_c: &Vec<usize>,
    atom_n: Option<usize>,
    atom_c: Option<usize>,
    n_name: &Option<String>,
    c_name: &Option<String>,
    atom_adjn: Option<usize>,
    atom_adjc: Option<usize>,
    adjn_name: &Option<String>,
    adjc_name: &Option<String>,
) -> (r: bool)
    ensures
        r == boundary_view(
            exclude_n@,
            exclude_c@,
            atom_n,
            atom_c,
            *n_name,
            *c_name,
            atom_adjn,
            atom_adjc,
            *adjn_name,
            *adjc_name,
        ).valid(),
{
    let ok_n = match atom_n {
        Some(a) => {
            proof {
                lemma_contains_int(exclude_n@, a);
            }
            crate::text::contains_id(exclude_n, a) && n_name.is_some()
        },
        None => true,
    };
    let ok_c = match atom_c {
        Some(a) => {
            proof {
                lemma_contains_int(exclude_c@, a);
            }
            crate::text::contains_id(exclude_c, a) && c_name.is_some()
        },
        None => true,
    };
    let ok_adjn = match atom_adjn {
        Some(_) => adjn_name.is_some(),
        None => true,
    };
    let ok_adjc = match atom_adjc {
        Some(_) => adjc_name.is_some(),
        None => true,
    };
    ok_n && ok_c && ok_adjn && ok_adjc
}

/// The name with one leading boundary mark removed, if it carries one.
pub fn strip_mark_exec(name: &String) -> (r: String)
    ensures
        r@ == strip_mark(name@),
{
    let n = name.as_str().unicode_len();
    if n > 0 {
        let c = name.as_str().get_char(0);
        if c == '-' || c == '+' {
            let r = String::from_str(name.as_str().substring_char(1, n));
            proof {
                assert(r@ =~= name@.drop_first());
            }
            return r;
        }
    }
    name.clone()
}

/// The renamed form of one atom name under the boundary description.
pub fn boundary_rename_name(
    exclude_n: &Vec<usize>,
    exclude_c: &Vec<usize>,
    atom_n: Option<usize>,
    atom_c: Option<usize>,
    n_name: &Option<String>,
    c_name: &Option<String>,
    atom_adjn: Option<usize>,
    atom_adjc: Option<usize>,
    adjn_name: &Option<String>,
    adjc_name: &Option<String>,
    id: usize,
    name: &String,
) -> (r: String)
    requires
        boundary_view(
            exclude_n@,
            exclude_c@,
            atom_n,
            atom_c,
            *n_name,
            *c_name,
            atom_adjn,
            atom_adjc,
            *adjn_name,
            *adjc_name,
        ).valid(),
    ensures
        r@ == spec_boundary_name(
            boundary_view(
                exclude_n@,
                exclude_c@,
                atom_n,
                atom_c,
                *n_name,
                *c_name,
                atom_adjn,
                atom_adjc,
                *adjn_name,
                *adjc_name,
            ),
            id as int,
            name@,
        ),
{
    if let Some(a) = atom_adjn {
        if a == id {
            return match adjn_name {
                Some(s) => s.clone(),
                None => String::new(),
            };
        }
    }
    if let Some(a) = atom_adjc {
        if a == id {
            return match adjc_name {
                Some(s) => s.clone(),
                None => String::new(),
            };
        }
    }
    proof {
        lemma_contains_int(exclude_n@, id);
        lemma_contains_int(exclude_c@, id);
    }
    if crate::text::contains_id(exclude_n, id) {
        if atom_n.is_some() && atom_n.unwrap() == id {
            return match n_name {
                Some(s) => s.clone(),
                None => String::new(),
            };
        }
        let r = String::from_str("-").concat(strip_mark_exec(name).as_str());
        proof {
            reveal_strlit("-");
            assert(r@ =~= seq!['-'] + strip_mark(name@));
        }
        return r;
    }
    if crate::text::contains_id(exclude_c, id) {
        if atom_c.is_some() && atom_c.unwrap() == id {
            return match c_name {
                Some(s) => s.clone(),
                None => String::new(),
            };
        }
        let r = String::from_str("+").concat(strip_mark_exec(name).as_str());
        proof {
            reveal_strlit("+");
            assert(r@ =~= seq!['+'] + strip_mark(name@));
        }
        return r;
    }
    name.clone()
}

} // verus!
