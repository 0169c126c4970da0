//! The molecular bonding graph parsed from a structure file: atoms with
//! their positions and type labels, and bonds as ordered atom-id pairs.
//! Numeric fields that the conversion never computes with (coordinates,
//! charges) are carried through as their original text fields.

use vstd::prelude::*;
use vstd::string::StrSliceExecFns;
use vstd::string::StringExecFns;

use crate::error::GenError;
use crate::text::all_digits;
use crate::text::good_token;
use crate::text::is_float_token;
use crate::text::join_lines;
use crate::text::join_nl;
use crate::text::join_sp;
use crate::text::join_tokens;
use crate::text::spec_dec;
use crate::text::spec_split_lines;
use crate::text::spec_tokens;
use crate::text::spec_trim;
use crate::text::spec_val;
use crate::text::split_lines;
use crate::text::split_ws;
use crate::text::str_eq;
use crate::text::trim;
use crate::text::u64_to_string;
use crate::text::parse_usize;
use crate::text::is_float_str;
use crate::text::digit_val;
use crate::text::is_digit;
use crate::text::is_ws;
use crate::text::lemma_dec_digits;
use crate::text::lemma_lines_join;
use crate::text::lemma_tokens_join;
use crate::text::lemma_val_dec;

verus! {

/// Header block of a structure file.
pub struct Molecule {
    pub sys_name: String,
    pub at_num: i32,
    pub bond_num: i32,
    pub sub_struct_num: i32,
    pub prop_num: i32,
    pub set_num: i32,
    pub sys_type: String,
    pub at_charge: String,
}

pub ghost struct MoleculeV {
    pub sys_name: Seq<char>,
    pub at_num: int,
    pub bond_num: int,
    pub sub_struct_num: int,
    pub prop_num: int,
    pub set_num: int,
    pub sys_type: Seq<char>,
    pub at_charge: Seq<char>,
}

impl View for Molecule {
    type V = MoleculeV;

    open spec fn view(&self) -> MoleculeV {
        MoleculeV {
            sys_name: self.sys_name@,
            at_num: self.at_num as int,
            bond_num: self.bond_num as int,
            sub_struct_num: self.sub_struct_num as int,
            prop_num: self.prop_num as int,
            set_num: self.set_num as int,
            sys_type: self.sys_type@,
            at_charge: self.at_charge@,
        }
    }
}

impl Molecule {
    /// Builds the header block, substituting the documented default for
    /// every absent field.
    pub fn new(
        sys_name: &str,
        at_num: Option<&i32>,
        bond_num: Option<&i32>,
        sub_struct_num: Option<&i32>,
        prop_num: Option<&i32>,
        set_num: Option<&i32>,
        sys_type: Option<String>,
        at_charge: Option<String>,
    ) -> (r: Molecule)
        ensures
            r@.sys_name == sys_name@,
            r@.at_num == (match at_num {
                Some(v) => *v as int,
                None => 0,
            }),
            r@.bond_num == (match bond_num {
                Some(v) => *v as int,
                None => 0,
            }),
            r@.sub_struct_num == (match sub_struct_num {
                Some(v) => *v as int,
                None => 0,
            }),
            r@.prop_num == (match prop_num {
                Some(v) => *v as int,
                None => 0,
            }),
            r@.set_num == (match set_num {
                Some(v) => *v as int,
                None => 0,
            }),
            r@.sys_type == (match sys_type {
                Some(ref v) => v@,
                None => "SMALL"@,
            }),
            r@.at_charge == (match at_charge {
                Some(ref v) => v@,
                None => "USER_CHARGES"@,
            }),
    {
        let sys_type = match sys_type {
            Some(v) => v,
            None => String::from_str("SMALL"),
        };
        let at_charge = match at_charge {
            Some(v) => v,
            None => String::from_str("USER_CHARGES"),
        };
        Molecule {
            sys_name: String::from_str(sys_name),
            at_num: match at_num {
                Some(v) => *v,
                None => 0,
            },
            bond_num: match bond_num {
                Some(v) => *v,
                None => 0,
            },
            sub_struct_num: match sub_struct_num {
                Some(v) => *v,
                None => 0,
            },
            prop_num: match prop_num {
                Some(v) => *v,
                None => 0,
            },
            set_num: match set_num {
                Some(v) => *v,
                None => 0,
            },
            sys_type,
            at_charge,
        }
    }
}

/// One atom of the bonding graph. The element is the part of the type
/// label before its first dot.
pub struct Atom {
    pub atom_id: usize,
    pub atom_name: String,
    pub x: String,
    pub y: String,
    pub z: String,
    pub at: String,
    pub atom_charge: String,
    pub element: String,
}

pub ghost struct AtomV {
    pub atom_id: int,
    pub atom_name: Seq<char>,
    pub x: Seq<char>,
    pub y: Seq<char>,
    pub z: Seq<char>,
    pub at: Seq<char>,
    pub atom_charge: Seq<char>,
    pub element: Seq<char>,
}

impl View for Atom {
    type V = AtomV;

    open spec fn view(&self) -> AtomV {
        AtomV {
            atom_id: self.atom_id as int,
            atom_name: self.atom_name@,
            x: self.x@,
            y: self.y@,
            z: self.z@,
            at: self.at@,
            atom_charge: self.atom_charge@,
            element: self.element@,
        }
    }
}

/// One bond of the graph, an ordered pair of atom ids.
pub struct Bond {
    pub bond_id: usize,
    pub a1: usize,
    pub a2: usize,
    pub bt: String,
}

pub ghost struct BondV {
    pub bond_id: int,
    pub a1: int,
    pub a2: int,
    pub bt: Seq<char>,
}

impl View for Bond {
    type V = BondV;

    open spec fn view(&self) -> BondV {
        BondV { bond_id: self.bond_id as int, a1: self.a1 as int, a2: self.a2 as int, bt: self.bt@ }
    }
}

/// The whole structure file: header, atom block, bond block.
pub struct MOL2 {
    pub mol: Molecule,
    pub atoms: Vec<Atom>,
    pub bonds: Vec<Bond>,
}

pub ghost struct MOL2V {
    pub mol: MoleculeV,
    pub atoms: Seq<AtomV>,
    pub bonds: Seq<BondV>,
}

impl View for MOL2 {
    type V = MOL2V;

    open spec fn view(&self) -> MOL2V {
        MOL2V {
            mol: self.mol@,
            atoms: self.atoms@.map_values(|a: Atom| a@),
            bonds: self.bonds@.map_values(|b: Bond| b@),
        }
    }
}

/// The part of a type label before its first dot.
pub open spec fn element_of(at: Seq<char>) -> Seq<char>
    decreases at.len(),
{
    if at.len() == 0 || at[0] == '.' {
        Seq::empty()
    } else {
        seq![at[0]] + element_of(at.drop_first())
    }
}

proof fn lemma_element_of_prefix(at: Seq<char>, k: int)
    requires
        0 <= k <= at.len(),
        forall|m: int| 0 <= m < k ==> #[trigger] at[m] != '.',
        k == at.len() || at[k] == '.',
    ensures
        element_of(at) == at.take(k),
    decreases k,
{
    if k == 0 {
        assert(at.take(0) =~= Seq::<char>::empty());
    } else {
        assert(at.drop_first() =~= at.skip(1));
        lemma_element_of_prefix(at.skip(1), k - 1);
        assert(seq![at[0]] + at.skip(1).take(k - 1) =~= at.take(k));
    }
}

fn scan_dot(at: &str, i: usize, n: usize) -> (k: usize)
    requires
        n == at@.len(),
        i <= n,
        forall|m: int| 0 <= m < i ==> #[trigger] at@[m] != '.',
    ensures
        i <= k <= n,
        forall|m: int| 0 <= m < k ==> #[trigger] at@[m] != '.',
        k == n || at@[k as int] == '.',
    decreases n - i,
{
    if i == n {
        return n;
    }
    if at.get_char(i) == '.' {
        i
    } else {
        scan_dot(at, i + 1, n)
    }
}

/// The element named by a type label.
pub fn element_of_str(at: &str) -> (r: String)
    ensures
        r@ == element_of(at@),
{
    let n = at.unicode_len();
    let k = scan_dot(at, 0, n);
    proof {
        lemma_element_of_prefix(at@, k as int);
        assert(at@.take(k as int) =~= at@.subrange(0, k as int));
    }
    String::from_str(at.substring_char(0, k))
}

/// Invariants of a parsed graph: atom ids are dense and one-based, every
/// bond endpoint references an existing atom, the header counts agree
/// with the blocks, and each atom's element matches its type label.
impl MOL2V {
    pub open spec fn wf(self) -> bool {
        &&& self.mol.at_num == self.atoms.len() as int
        &&& self.mol.bond_num == self.bonds.len() as int
        &&& forall|k: int|
            0 <= k < self.atoms.len() ==> (#[trigger] self.atoms[k]).atom_id == k + 1
        &&& forall|k: int|
            0 <= k < self.bonds.len() ==> 1 <= (#[trigger] self.bonds[k]).a1 <= self.atoms.len()
                && 1 <= self.bonds[k].a2 <= self.atoms.len()
        &&& forall|k: int|
            0 <= k < self.atoms.len() ==> (#[trigger] self.atoms[k]).element == element_of(
                self.atoms[k].at,
            )
    }

    /// The graph's text fields are sound structure-file fields, so the
    /// rendered file parses back.
    pub open spec fn renderable(self) -> bool {
        &&& good_field(self.mol.sys_name)
        &&& good_field(self.mol.sys_type)
        &&& good_field(self.mol.at_charge)
        &&& self.atoms.len() <= i32::MAX
        &&& self.bonds.len() <= i32::MAX
        &&& forall|k: int| 0 <= k < self.atoms.len() ==> (#[trigger] self.atoms[k]).renderable()
        &&& forall|k: int| 0 <= k < self.bonds.len() ==> (#[trigger] self.bonds[k]).renderable()
    }
}

impl AtomV {
    pub open spec fn renderable(self) -> bool {
        &&& good_token(self.atom_name)
        &&& good_token(self.at)
        &&& good_token(self.x) && is_float_token(self.x)
        &&& good_token(self.y) && is_float_token(self.y)
        &&& good_token(self.z) && is_float_token(self.z)
        &&& good_token(self.atom_charge) && is_float_token(self.atom_charge)
    }
}

impl BondV {
    pub open spec fn renderable(self) -> bool {
        &&& good_token(self.bt)
        &&& 0 <= self.bond_id <= usize::MAX
        &&& 0 <= self.a1 <= usize::MAX
        &&& 0 <= self.a2 <= usize::MAX
    }
}

/// A field that may stand on a header line of its own: non-empty, free
/// of whitespace, and free of the section-marker lead character.
pub open spec fn good_field(t: Seq<char>) -> bool {
    good_token(t) && forall|m: int| 0 <= m < t.len() ==> #[trigger] t[m] != '@'
}

pub open spec fn molecule_marker() -> Seq<char> {
    "@<TRIPOS>MOLECULE"@
}

pub open spec fn atom_marker() -> Seq<char> {
    "@<TRIPOS>ATOM"@
}

pub open spec fn bond_marker() -> Seq<char> {
    "@<TRIPOS>BOND"@
}

/// The atom-block line of an atom: id, name, coordinates, type label,
/// then the synthetic residue id and name, then the charge.
pub open spec fn spec_atom_line(a: AtomV) -> Seq<char> {
    join_sp(
        seq![
            spec_dec(a.atom_id as nat),
            a.atom_name,
            a.x,
            a.y,
            a.z,
            a.at,
            seq!['1'],
            seq!['M', 'O', 'L'],
            a.atom_charge,
        ],
    )
}

/// The bond-block line of a bond: id, both endpoints, bond type.
pub open spec fn spec_bond_line(b: BondV) -> Seq<char> {
    join_sp(seq![spec_dec(b.bond_id as nat), spec_dec(b.a1 as nat), spec_dec(b.a2 as nat), b.bt])
}

/// The counts line of the header: atom count, bond count, then the
/// synthetic substructure, property and set counts.
pub open spec fn spec_counts_line(m: MOL2V) -> Seq<char> {
    join_sp(
        seq![
            spec_dec(m.atoms.len()),
            spec_dec(m.bonds.len()),
            seq!['1'],
            seq!['0'],
            seq!['0'],
        ],
    )
}

/// Every line of the rendered structure file, in order.
pub open spec fn spec_render_lines(m: MOL2V) -> Seq<Seq<char>> {
    seq![
        molecule_marker(),
        m.mol.sys_name,
        spec_counts_line(m),
        m.mol.sys_type,
        m.mol.at_charge,
        atom_marker(),
    ] + m.atoms.map_values(|a: AtomV| spec_atom_line(a)) + seq![bond_marker()]
        + m.bonds.map_values(|b: BondV| spec_bond_line(b))
}

/// The rendered structure file.
pub open spec fn spec_render_mol2(m: MOL2V) -> Seq<char> {
    join_nl(spec_render_lines(m))
}

/// Index of the first line equal to `key`, or -1.
pub open spec fn find_line(lines: Seq<Seq<char>>, key: Seq<char>) -> int
    decreases lines.len(),
{
    if lines.len() == 0 {
        -1
    } else if lines[0] == key {
        0
    } else {
        let r = find_line(lines.drop_first(), key);
        if r < 0 {
            -1
        } else {
            r + 1
        }
    }
}

pub proof fn lemma_find_line_props(lines: Seq<Seq<char>>, key: Seq<char>)
    ensures
        find_line(lines, key) == -1 ==> forall|i: int|
            0 <= i < lines.len() ==> lines[i] != key,
        find_line(lines, key) != -1 ==> {
            let r = find_line(lines, key);
            &&& 0 <= r < lines.len()
            &&& lines[r] == key
            &&& forall|i: int| 0 <= i < r ==> lines[i] != key
        },
    decreases lines.len(),
{
    if lines.len() > 0 && lines[0] != key {
        lemma_find_line_props(lines.drop_first(), key);
        assert(forall|i: int|
            1 <= i < lines.len() ==> (#[trigger] lines[i]) == lines.drop_first()[i - 1]);
    }
}

/// Finds the first line equal to `key`.
fn find_line_exec(lines: &Vec<String>, key: &str) -> (r: Option<usize>)
    ensures
        match r {
            Some(i) => find_line(lines@.map_values(|l: String| l@), key@) == i as int,
            None => find_line(lines@.map_values(|l: String| l@), key@) == -1,
        },
{
    let n = lines.len();
    let mut i: usize = 0;
    let ghost m = lines@.map_values(|l: String| l@);
    proof {
        lemma_find_line_props(m, key@);
        assert(forall|j: int| 0 <= j < lines@.len() ==> (#[trigger] m[j]) == lines@[j]@);
    }
    while i < n
        invariant
            0 <= i <= n,
            n == lines@.len(),
            m == lines@.map_values(|l: String| l@),
            forall|j: int| 0 <= j < i ==> (#[trigger] m[j]) != key@,
        decreases n - i,
    {
        if str_eq(lines[i].as_str(), key) {
            proof {
                lemma_find_line_props(m, key@);
                assert(m[i as int] == key@);
                let r = find_line(m, key@);
                assert(r == i);
            }
            return Some(i);
        }
        proof {
            assert(m[i as int] != key@);
        }
        i = i + 1;
    }
    None
}

/// A count field of the header: digits whose value fits the header's
/// integer type.
pub open spec fn ok_count(t: Seq<char>) -> bool {
    t.len() > 0 && all_digits(t) && spec_val(t) <= i32::MAX
}

/// A field holding an atom or bond id.
pub open spec fn usize_token(t: Seq<char>) -> bool {
    t.len() > 0 && all_digits(t) && spec_val(t) <= usize::MAX
}

pub open spec fn default_charge() -> Seq<char> {
    seq!['0', '.', '0']
}

/// Reads one atom-block line. The atom at position `idx` must carry id
/// `idx + 1`: ids are dense and one-based.
pub open spec fn spec_parse_atom_line(line: Seq<char>, idx: nat) -> Option<AtomV> {
    let toks = spec_tokens(line);
    if toks.len() < 6 {
        None
    } else if !(toks[0].len() > 0 && all_digits(toks[0]) && spec_val(toks[0]) == idx + 1) {
        None
    } else if !(is_float_token(toks[2]) && is_float_token(toks[3]) && is_float_token(toks[4])) {
        None
    } else if toks.len() > 8 && !is_float_token(toks[8]) {
        None
    } else {
        Some(
            AtomV {
                atom_id: idx + 1 as int,
                atom_name: toks[1],
                x: toks[2],
                y: toks[3],
                z: toks[4],
                at: toks[5],
                atom_charge: if toks.len() > 8 {
                    toks[8]
                } else {
                    default_charge()
                },
                element: element_of(toks[5]),
            },
        )
    }
}

/// Reads one bond-block line; both endpoints must reference an existing
/// atom.
pub open spec fn spec_parse_bond_line(line: Seq<char>, n_atoms: int) -> Option<BondV> {
    let toks = spec_tokens(line);
    if toks.len() < 4 {
        None
    } else if !usize_token(toks[0]) {
        None
    } else if !(usize_token(toks[1]) && 1 <= spec_val(toks[1]) <= n_atoms) {
        None
    } else if !(usize_token(toks[2]) && 1 <= spec_val(toks[2]) <= n_atoms) {
        None
    } else {
        Some(
            BondV {
                bond_id: spec_val(toks[0]) as int,
                a1: spec_val(toks[1]) as int,
                a2: spec_val(toks[2]) as int,
                bt: toks[3],
            },
        )
    }
}

pub open spec fn spec_parse_atoms(lines: Seq<Seq<char>>, start: int, count: nat, idx: nat) -> Option<
    Seq<AtomV>,
>
    decreases count,
{
    if count == 0 {
        Some(Seq::empty())
    } else {
        match spec_parse_atom_line(lines[start], idx) {
            None => None,
            Some(a) => match spec_parse_atoms(lines, start + 1, (count - 1) as nat, idx + 1) {
                None => None,
                Some(rest) => Some(seq![a] + rest),
            },
        }
    }
}

pub open spec fn spec_parse_bonds(
    lines: Seq<Seq<char>>,
    start: int,
    count: nat,
    n_atoms: int,
) -> Option<Seq<BondV>>
    decreases count,
{
    if count == 0 {
        Some(Seq::empty())
    } else {
        match spec_parse_bond_line(lines[start], n_atoms) {
            None => None,
            Some(b) => match spec_parse_bonds(lines, start + 1, (count - 1) as nat, n_atoms) {
                None => None,
                Some(rest) => Some(seq![b] + rest),
            },
        }
    }
}

/// When every atom line reads back the corresponding record, the block
/// reads back the whole sequence.
pub proof fn lemma_parse_atoms_ok(lines: Seq<Seq<char>>, start: int, idx: nat, avs: Seq<AtomV>)
    requires
        forall|m: int|
            0 <= m < avs.len() ==> spec_parse_atom_line(lines[start + m], (idx + m) as nat)
                == Some(#[trigger] avs[m]),
    ensures
        spec_parse_atoms(lines, start, avs.len(), idx) == Some(avs),
    decreases avs.len(),
{
    if avs.len() > 0 {
        assert(spec_parse_atom_line(lines[start + 0], idx) == Some(avs[0]));
        assert(forall|m: int|
            0 <= m < avs.drop_first().len() ==> spec_parse_atom_line(
                lines[start + 1 + m],
                (idx + 1 + m) as nat,
            ) == Some(#[trigger] avs.drop_first()[m]));
        lemma_parse_atoms_ok(lines, start + 1, idx + 1, avs.drop_first());
        assert(seq![avs[0]] + avs.drop_first() =~= avs);
    }
}

pub proof fn lemma_parse_atoms_fail(lines: Seq<Seq<char>>, start: int, count: nat, idx: nat, m: int)
    requires
        0 <= m < count,
        spec_parse_atom_line(lines[start + m], (idx + m) as nat) is None,
        forall|j: int|
            0 <= j < m ==> #[trigger] spec_parse_atom_line(lines[start + j], (idx + j) as nat)
                is Some,
    ensures
        spec_parse_atoms(lines, start, count, idx) is None,
    decreases m,
{
    if m > 0 {
        assert(spec_parse_atom_line(lines[start + 0], (idx + 0) as nat) is Some);
        assert forall|j: int|
            0 <= j < m - 1 implies #[trigger] spec_parse_atom_line(
            lines[start + 1 + j],
            ((idx + 1) + j) as nat,
        ) is Some by {
            assert(spec_parse_atom_line(lines[start + (j + 1)], (idx + (j + 1)) as nat) is Some);
        };
        assert(spec_parse_atom_line(lines[(start + 1) + (m - 1)], ((idx + 1) + (m - 1)) as nat)
            is None);
        lemma_parse_atoms_fail(lines, start + 1, (count - 1) as nat, idx + 1, m - 1);
    }
}

pub proof fn lemma_parse_bonds_ok(lines: Seq<Seq<char>>, start: int, n_atoms: int, bvs: Seq<BondV>)
    requires
        forall|m: int|
            0 <= m < bvs.len() ==> spec_parse_bond_line(lines[start + m], n_atoms) == Some(
                #[trigger] bvs[m],
            ),
    ensures
        spec_parse_bonds(lines, start, bvs.len(), n_atoms) == Some(bvs),
    decreases bvs.len(),
{
    if bvs.len() > 0 {
        assert(spec_parse_bond_line(lines[start + 0], n_atoms) == Some(bvs[0]));
        assert(forall|m: int|
            0 <= m < bvs.drop_first().len() ==> spec_parse_bond_line(lines[start + 1 + m], n_atoms)
                == Some(#[trigger] bvs.drop_first()[m]));
        lemma_parse_bonds_ok(lines, start + 1, n_atoms, bvs.drop_first());
        assert(seq![bvs[0]] + bvs.drop_first() =~= bvs);
    }
}

pub proof fn lemma_parse_bonds_fail(
    lines: Seq<Seq<char>>,
    start: int,
    count: nat,
    n_atoms: int,
    m: int,
)
    requires
        0 <= m < count,
        spec_parse_bond_line(lines[start + m], n_atoms) is None,
        forall|j: int| 0 <= j < m ==> #[trigger] spec_parse_bond_line(lines[start + j], n_atoms)
            is Some,
    ensures
        spec_parse_bonds(lines, start, count, n_atoms) is None,
    decreases m,
{
    if m > 0 {
        assert(spec_parse_bond_line(lines[start + 0], n_atoms) is Some);
        assert forall|j: int|
            0 <= j < m - 1 implies #[trigger] spec_parse_bond_line(
            lines[start + 1 + j],
            n_atoms,
        ) is Some by {
            assert(spec_parse_bond_line(lines[start + (j + 1)], n_atoms) is Some);
        };
        assert(spec_parse_bond_line(lines[(start + 1) + (m - 1)], n_atoms) is None);
        lemma_parse_bonds_fail(lines, start + 1, (count - 1) as nat, n_atoms, m - 1);
    }
}

/// The whole structure file read from its text: header counts checked
/// against the blocks, atom ids dense, bond endpoints in range.
pub open spec fn spec_parse_mol2(content: Seq<char>, sys_name: Seq<char>) -> Option<MOL2V> {
    let lines = spec_split_lines(content).map_values(|l: Seq<char>| spec_trim(l));
    let mol_ln = find_line(lines, molecule_marker());
    if mol_ln < 0 || mol_ln + 5 > lines.len() {
        None
    } else {
        let ctoks = spec_tokens(lines[mol_ln + 2]);
        if ctoks.len() < 2 || !(forall|i: int| 0 <= i < ctoks.len() ==> ok_count(#[trigger] ctoks[i])) {
            None
        } else {
            let at_num = spec_val(ctoks[0]);
            let bond_num = spec_val(ctoks[1]);
            let atom_ln = find_line(lines, atom_marker());
            if atom_ln < 0 || atom_ln + 1 + at_num > lines.len() {
                None
            } else {
                match spec_parse_atoms(lines, atom_ln + 1, at_num, 0) {
                    None => None,
                    Some(atoms) => {
                        let bond_ln = find_line(lines, bond_marker());
                        if bond_ln < 0 || bond_ln + 1 + bond_num > lines.len() {
                            None
                        } else {
                            match spec_parse_bonds(lines, bond_ln + 1, bond_num, at_num as int) {
                                None => None,
                                Some(bonds) => Some(
                                    MOL2V {
                                        mol: MoleculeV {
                                            sys_name: sys_name,
                                            at_num: at_num as int,
                                            bond_num: bond_num as int,
                                            sub_struct_num: if ctoks.len() > 2 {
                                                spec_val(ctoks[2]) as int
                                            } else {
                                                0
                                            },
                                            prop_num: if ctoks.len() > 3 {
                                                spec_val(ctoks[3]) as int
                                            } else {
                                                0
                                            },
                                            set_num: if ctoks.len() > 4 {
                                                spec_val(ctoks[4]) as int
                                            } else {
                                                0
                                            },
                                            sys_type: lines[mol_ln + 3],
                                            at_charge: lines[mol_ln + 4],
                                        },
                                        atoms,
                                        bonds,
                                    },
                                ),
                            }
                        }
                    },
                }
            }
        }
    }
}

/// Reads one atom-block line into an atom record.
fn parse_atom_line(line: &str, idx: usize) -> (r: Option<Atom>)
    requires
        idx + 1 <= i32::MAX,
    ensures
        match r {
            Some(a) => spec_parse_atom_line(line@, idx as nat) == Some(a@),
            None => spec_parse_atom_line(line@, idx as nat) is None,
        },
{
    let toks = split_ws(line);
    let ghost stoks = spec_tokens(line@);
    if toks.len() < 6 {
        return None;
    }
    let id = match parse_usize(toks[0].as_str()) {
        Some(v) => v,
        None => {
            return None;
        },
    };
    if id != idx + 1 {
        return None;
    }
    if !(is_float_str(toks[2].as_str()) && is_float_str(toks[3].as_str()) && is_float_str(
        toks[4].as_str(),
    )) {
        return None;
    }
    let atom_charge: String = if toks.len() > 8 {
        if !is_float_str(toks[8].as_str()) {
            return None;
        }
        toks[8].clone()
    } else {
        let c = String::from_str("0.0");
        proof {
            reveal_strlit("0.0");
            assert(c@ =~= default_charge());
        }
        c
    };
    let element = element_of_str(toks[5].as_str());
    Some(
        Atom {
            atom_id: id,
            atom_name: toks[1].clone(),
            x: toks[2].clone(),
            y: toks[3].clone(),
            z: toks[4].clone(),
            at: toks[5].clone(),
            atom_charge,
            element,
        },
    )
}

/// Reads one bond-block line into a bond record.
fn parse_bond_line(line: &str, n_atoms: usize) -> (r: Option<Bond>)
    ensures
        match r {
            Some(b) => spec_parse_bond_line(line@, n_atoms as int) == Some(b@),
            None => spec_parse_bond_line(line@, n_atoms as int) is None,
        },
{
    let toks = split_ws(line);
    if toks.len() < 4 {
        return None;
    }
    let bond_id = match parse_usize(toks[0].as_str()) {
        Some(v) => v,
        None => {
            return None;
        },
    };
    let a1 = match parse_usize(toks[1].as_str()) {
        Some(v) => v,
        None => {
            return None;
        },
    };
    if !(1 <= a1 && a1 <= n_atoms) {
        return None;
    }
    let a2 = match parse_usize(toks[2].as_str()) {
        Some(v) => v,
        None => {
            return None;
        },
    };
    if !(1 <= a2 && a2 <= n_atoms) {
        return None;
    }
    Some(Bond { bond_id, a1, a2, bt: toks[3].clone() })
}

impl MOL2 {
    /// Reads a structure file from its text. The system name comes from
    /// the caller, as the header's own name line is not consulted.
    #[verifier::loop_isolation(false)]
    pub fn from(content: &str, sys_name: &str) -> (r: Result<MOL2, GenError>)
        ensures
            (r is Ok) == (spec_parse_mol2(content@, sys_name@) is Some),
            r matches Ok(m) ==> Some(m@) == spec_parse_mol2(content@, sys_name@) && m@.wf(),
            r matches Err(e) ==> e is FormatError,
    {
        let raw = split_lines(content);
        let mut lines: Vec<String> = Vec::new();
        let mut i: usize = 0;
        let nraw = raw.len();
        while i < nraw
            invariant
                0 <= i <= nraw,
                nraw == raw@.len(),
                lines@.len() == i,
                forall|j: int| 0 <= j < i ==> (#[trigger] lines@[j])@ == spec_trim(raw@[j]@),
            decreases nraw - i,
        {
            lines.push(String::from_str(trim(raw[i].as_str())));
            i = i + 1;
        }
        let ghost glines = spec_split_lines(content@).map_values(|l: Seq<char>| spec_trim(l));
        proof {
            assert(raw@.map_values(|l: String| l@) == spec_split_lines(content@));
            assert(forall|j: int|
                0 <= j < raw@.len() ==> (#[trigger] raw@[j])@ == spec_split_lines(content@)[j]);
            assert(lines@.map_values(|l: String| l@) =~= glines);
        }
        let mol_ln = match find_line_exec(&lines, "@<TRIPOS>MOLECULE") {
            Some(v) => v,
            None => {
                return Err(GenError::FormatError { line: 0 });
            },
        };
        if lines.len() < 5 || mol_ln > lines.len() - 5 {
            return Err(GenError::FormatError { line: mol_ln });
        }
        let ctoks = split_ws(lines[mol_ln + 2].as_str());
        let ghost gctoks = spec_tokens(glines[mol_ln + 2]);
        proof {
            assert(ctoks@.map_values(|t: String| t@) == gctoks);
            assert(forall|j: int|
                0 <= j < ctoks@.len() ==> (#[trigger] ctoks@[j])@ == gctoks[j]);
        }
        if ctoks.len() < 2 {
            return Err(GenError::FormatError { line: mol_ln + 2 });
        }
        let mut vals: Vec<usize> = Vec::new();
        let nct = ctoks.len();
        let mut k: usize = 0;
        while k < nct
            invariant
                0 <= k <= nct,
                nct == ctoks@.len(),
                nct == gctoks.len(),
                vals@.len() == k,
                forall|j: int| 0 <= j < ctoks@.len() ==> (#[trigger] ctoks@[j])@ == gctoks[j],
                forall|j: int| 0 <= j < k ==> ok_count(#[trigger] gctoks[j]),
                forall|j: int| 0 <= j < k ==> (#[trigger] vals@[j]) as nat == spec_val(gctoks[j]),
            decreases nct - k,
        {
            let v = match parse_usize(ctoks[k].as_str()) {
                Some(v) => v,
                None => {
                    proof {
                        assert(!ok_count(gctoks[k as int]));
                    }
                    return Err(GenError::FormatError { line: mol_ln + 2 });
                },
            };
            if v > (i32::MAX as usize) {
                proof {
                    assert(!ok_count(gctoks[k as int]));
                }
                return Err(GenError::FormatError { line: mol_ln + 2 });
            }
            vals.push(v);
            k = k + 1;
        }
        let at_num = vals[0];
        let bond_num = vals[1];
        let atom_ln = match find_line_exec(&lines, "@<TRIPOS>ATOM") {
            Some(v) => v,
            None => {
                return Err(GenError::FormatError { line: 0 });
            },
        };
        proof {
            lemma_find_line_props(glines, atom_marker());
        }
        if at_num > lines.len() - atom_ln - 1 {
            return Err(GenError::FormatError { line: atom_ln });
        }
        let mut atoms: Vec<Atom> = Vec::new();
        let mut m: usize = 0;
        while m < at_num
            invariant
                0 <= m <= at_num,
                at_num <= i32::MAX,
                atom_ln + 1 + at_num <= lines@.len(),
                lines@.map_values(|l: String| l@) == glines,
                atoms@.len() == m,
                forall|j: int|
                    0 <= j < m ==> #[trigger] spec_parse_atom_line(
                        glines[atom_ln + 1 + j],
                        j as nat,
                    ) == Some(atoms@.map_values(|a: Atom| a@)[j]),
            decreases at_num - m,
        {
            let a = match parse_atom_line(lines[atom_ln + 1 + m].as_str(), m) {
                Some(a) => a,
                None => {
                    proof {
                        assert(glines[atom_ln + 1 + m as int] == lines@[atom_ln + 1 + m as int]@);
                        assert(forall|j: int|
                            0 <= j < m ==> #[trigger] spec_parse_atom_line(
                                glines[(atom_ln + 1) + j],
                                (0 + j) as nat,
                            ) is Some);
                        lemma_parse_atoms_fail(
                            glines,
                            atom_ln + 1,
                            at_num as nat,
                            0,
                            m as int,
                        );
                    }
                    return Err(GenError::FormatError { line: atom_ln + 1 + m });
                },
            };
            proof {
                assert(glines[atom_ln + 1 + m as int] == lines@[atom_ln + 1 + m as int]@);
                assert((atoms@ + seq![a]).map_values(|x: Atom| x@) =~= atoms@.map_values(
                    |x: Atom| x@,
                ) + seq![a@]);
            }
            atoms.push(a);
            m = m + 1;
        }
        proof {
            assert(forall|j: int|
                0 <= j < at_num ==> #[trigger] spec_parse_atom_line(
                    glines[(atom_ln + 1) + j],
                    (0 + j) as nat,
                ) == Some(atoms@.map_values(|a: Atom| a@)[j]));
            lemma_parse_atoms_ok(glines, atom_ln + 1, 0, atoms@.map_values(|a: Atom| a@));
        }
        let bond_ln = match find_line_exec(&lines, "@<TRIPOS>BOND") {
            Some(v) => v,
            None => {
                return Err(GenError::FormatError { line: 0 });
            },
        };
        proof {
            lemma_find_line_props(glines, bond_marker());
        }
        if bond_num > lines.len() - bond_ln - 1 {
            return Err(GenError::FormatError { line: bond_ln });
        }
        let mut bonds: Vec<Bond> = Vec::new();
        let mut q: usize = 0;
        while q < bond_num
            invariant
                0 <= q <= bond_num,
                at_num <= i32::MAX,
                bond_ln + 1 + bond_num <= lines@.len(),
                lines@.map_values(|l: String| l@) == glines,
                bonds@.len() == q,
                forall|j: int|
                    0 <= j < q ==> #[trigger] spec_parse_bond_line(
                        glines[bond_ln + 1 + j],
                        at_num as int,
                    ) == Some(bonds@.map_values(|b: Bond| b@)[j]),
            decreases bond_num - q,
        {
            let b = match parse_bond_line(lines[bond_ln + 1 + q].as_str(), at_num) {
                Some(b) => b,
                None => {
                    proof {
                        assert(glines[bond_ln + 1 + q as int] == lines@[bond_ln + 1 + q as int]@);
                        assert(forall|j: int|
                            0 <= j < q ==> #[trigger] spec_parse_bond_line(
                                glines[(bond_ln + 1) + j],
                                at_num as int,
                            ) is Some);
                        lemma_parse_bonds_fail(
                            glines,
                            bond_ln + 1,
                            bond_num as nat,
                            at_num as int,
                            q as int,
                        );
                    }
                    return Err(GenError::FormatError { line: bond_ln + 1 + q });
                },
            };
            proof {
                assert(glines[bond_ln + 1 + q as int] == lines@[bond_ln + 1 + q as int]@);
                assert((bonds@ + seq![b]).map_values(|x: Bond| x@) =~= bonds@.map_values(
                    |x: Bond| x@,
                ) + seq![b@]);
            }
            bonds.push(b);
            q = q + 1;
        }
        proof {
            lemma_parse_bonds_ok(glines, bond_ln + 1, at_num as int, bonds@.map_values(|b: Bond| b@));
        }
        let sub_struct_num: i32 = if vals.len() > 2 {
            vals[2] as i32
        } else {
            0
        };
        let prop_num: i32 = if vals.len() > 3 {
            vals[3] as i32
        } else {
            0
        };
        let set_num: i32 = if vals.len() > 4 {
            vals[4] as i32
        } else {
            0
        };
        let mol = Molecule {
            sys_name: String::from_str(sys_name),
            at_num: at_num as i32,
            bond_num: bond_num as i32,
            sub_struct_num,
            prop_num,
            set_num,
            sys_type: lines[mol_ln + 3].clone(),
            at_charge: lines[mol_ln + 4].clone(),
        };
        let r = MOL2 { mol, atoms, bonds };
        proof {
            let sp = spec_parse_mol2(content@, sys_name@).unwrap();
            assert(r@.mol == sp.mol);
            assert(r@.atoms =~= sp.atoms);
            assert(r@.bonds =~= sp.bonds);
            assert(r@ == sp);
            assert forall|j: int| 0 <= j < r@.atoms.len() implies (#[trigger] r@.atoms[j]).atom_id
                == j + 1 && r@.atoms[j].element == element_of(r@.atoms[j].at) by {
                assert(spec_parse_atom_line(glines[(atom_ln + 1) + j], (0 + j) as nat) == Some(
                    r@.atoms[j],
                ));
            }
            assert forall|j: int| 0 <= j < r@.bonds.len() implies 1 <= (#[trigger] r@.bonds[j]).a1
                <= r@.atoms.len() && 1 <= r@.bonds[j].a2 <= r@.atoms.len() by {
                assert(spec_parse_bond_line(glines[(bond_ln + 1) + j], at_num as int) == Some(
                    r@.bonds[j],
                ));
            }
            assert(r@.wf());
        }
        Ok(r)
    }

    pub fn new(mol: Molecule, atoms: Vec<Atom>, bonds: Vec<Bond>) -> (r: MOL2)
        ensures
            r@.mol == mol@,
            r@.atoms == atoms@.map_values(|a: Atom| a@),
            r@.bonds == bonds@.map_values(|b: Bond| b@),
    {
        MOL2 { mol, atoms, bonds }
    }

    /// Renders the graph back into structure-file text.
    pub fn to_mol2_string(&self) -> (r: String)
        ensures
            r@ == spec_render_mol2(self@),
    {
        let mut lines: Vec<String> = Vec::new();
        lines.push(String::from_str("@<TRIPOS>MOLECULE"));
        lines.push(self.mol.sys_name.clone());
        let mut counts: Vec<String> = Vec::new();
        counts.push(u64_to_string(self.atoms.len() as u64));
        counts.push(u64_to_string(self.bonds.len() as u64));
        counts.push(String::from_str("1"));
        counts.push(String::from_str("0"));
        counts.push(String::from_str("0"));
        proof {
            reveal_strlit("1");
            reveal_strlit("0");
            assert(counts@.map_values(|t: String| t@) =~~= seq![
                spec_dec(self@.atoms.len()),
                spec_dec(self@.bonds.len()),
                seq!['1'],
                seq!['0'],
                seq!['0'],
            ]);
        }
        lines.push(join_tokens(&counts));
        lines.push(self.mol.sys_type.clone());
        lines.push(self.mol.at_charge.clone());
        lines.push(String::from_str("@<TRIPOS>ATOM"));
        let n = self.atoms.len();
        let mut i: usize = 0;
        while i < n
            invariant
                0 <= i <= n,
                n == self.atoms.len(),
                lines@.len() == 6 + i,
                lines@.map_values(|t: String| t@) =~= spec_render_lines(self@).take(6 + i as int),
            decreases n - i,
        {
            let a = &self.atoms[i];
            let mut toks: Vec<String> = Vec::new();
            toks.push(u64_to_string(a.atom_id as u64));
            toks.push(a.atom_name.clone());
            toks.push(a.x.clone());
            toks.push(a.y.clone());
            toks.push(a.z.clone());
            toks.push(a.at.clone());
            toks.push(String::from_str("1"));
            toks.push(String::from_str("MOL"));
            toks.push(a.atom_charge.clone());
            proof {
                reveal_strlit("1");
                reveal_strlit("MOL");
                assert(toks@.map_values(|t: String| t@) =~~= seq![
                    spec_dec(a@.atom_id as nat),
                    a@.atom_name,
                    a@.x,
                    a@.y,
                    a@.z,
                    a@.at,
                    seq!['1'],
                    seq!['M', 'O', 'L'],
                    a@.atom_charge,
                ]);
            }
            let line = join_tokens(&toks);
            proof {
                assert(self@.atoms[i as int] == a@);
                assert(line@ == spec_atom_line(self@.atoms[i as int]));
                assert(spec_render_lines(self@)[6 + i as int] == spec_atom_line(
                    self@.atoms[i as int],
                ));
                assert((lines@ + seq![line]).map_values(|t: String| t@) =~= spec_render_lines(
                    self@,
                ).take(6 + (i + 1 as int)));
            }
            lines.push(line);
            i = i + 1;
        }
        lines.push(String::from_str("@<TRIPOS>BOND"));
        proof {
            assert(spec_render_lines(self@)[6 + n as int] == bond_marker());
            assert(lines@.map_values(|t: String| t@) =~= spec_render_lines(self@).take(
                7 + n as int,
            ));
        }
        let nb = self.bonds.len();
        let mut j: usize = 0;
        while j < nb
            invariant
                0 <= j <= nb,
                nb == self.bonds.len(),
                n == self.atoms.len(),
                lines@.len() == 7 + n + j,
                lines@.map_values(|t: String| t@) =~= spec_render_lines(self@).take(
                    7 + n as int + j as int,
                ),
            decreases nb - j,
        {
            let b = &self.bonds[j];
            let mut toks: Vec<String> = Vec::new();
            toks.push(u64_to_string(b.bond_id as u64));
            toks.push(u64_to_string(b.a1 as u64));
            toks.push(u64_to_string(b.a2 as u64));
            toks.push(b.bt.clone());
            proof {
                assert(toks@.map_values(|t: String| t@) =~~= seq![
                    spec_dec(b@.bond_id as nat),
                    spec_dec(b@.a1 as nat),
                    spec_dec(b@.a2 as nat),
                    b@.bt,
                ]);
            }
            let line = join_tokens(&toks);
            proof {
                assert(self@.bonds[j as int] == b@);
                assert(line@ == spec_bond_line(self@.bonds[j as int]));
                assert(spec_render_lines(self@)[7 + n as int + j as int] == spec_bond_line(
                    self@.bonds[j as int],
                ));
                assert((lines@ + seq![line]).map_values(|t: String| t@) =~= spec_render_lines(
                    self@,
                ).take(7 + n as int + (j + 1 as int)));
            }
            lines.push(line);
            j = j + 1;
        }
        proof {
            assert(spec_render_lines(self@).take(7 + n as int + nb as int) =~= spec_render_lines(
                self@,
            ));
        }
        join_lines(&lines)
    }
}

/// A non-empty all-digit field is a sound line field.
proof fn lemma_digit_seq_good(t: Seq<char>)
    requires
        t.len() > 0,
        all_digits(t),
    ensures
        good_token(t),
        t[0] != '@',
{
    assert forall|m: int| 0 <= m < t.len() implies !is_ws(#[trigger] t[m]) && t[m] != '\n' by {
        assert(is_digit(t[m]));
        assert(t[m] as u32 >= 48);
    }
    assert(t[0] as u32 <= 57);
}

/// Joining sound fields yields a line without newlines, without
/// whitespace at either end, starting with the first field's first
/// character.
proof fn lemma_join_sp_good(toks: Seq<Seq<char>>)
    requires
        toks.len() >= 1,
        forall|i: int| 0 <= i < toks.len() ==> good_token(#[trigger] toks[i]),
    ensures
        join_sp(toks).len() > 0,
        !is_ws(join_sp(toks)[0]),
        !is_ws(join_sp(toks).last()),
        forall|m: int| 0 <= m < join_sp(toks).len() ==> #[trigger] join_sp(toks)[m] != '\n',
        join_sp(toks)[0] == toks[0][0],
    decreases toks.len(),
{
    let s = join_sp(toks);
    if toks.len() == 1 {
        assert(good_token(toks[0]));
    } else {
        lemma_join_sp_good(toks.drop_first());
        let rest = join_sp(toks.drop_first());
        assert(s =~= toks[0] + seq![' '] + rest);
        assert(good_token(toks[0]));
        assert(s[0] == toks[0][0]);
        assert(s.last() == rest.last());
        assert forall|m: int| 0 <= m < s.len() implies #[trigger] s[m] != '\n' by {
            if m < toks[0].len() {
                assert(s[m] == toks[0][m]);
            } else if m == toks[0].len() {
                assert(s[m] == ' ');
            } else {
                assert(s[m] == rest[m - toks[0].len() - 1]);
            }
        }
    }
}

/// Trimming a line that starts and ends with non-whitespace leaves it
/// unchanged.
proof fn lemma_trim_id(l: Seq<char>)
    requires
        l.len() > 0,
        !is_ws(l[0]),
        !is_ws(l.last()),
    ensures
        spec_trim(l) == l,
{
    assert(crate::text::spec_trim_left(l) == l);
    assert(crate::text::spec_trim_right(l) == l);
}

/// The three section markers: their lead character, their lengths, and
/// that they are pairwise distinct, whitespace-free and newline-free.
proof fn lemma_markers()
    ensures
        molecule_marker().len() == 17,
        atom_marker().len() == 13,
        bond_marker().len() == 13,
        molecule_marker()[0] == '@',
        atom_marker()[0] == '@',
        bond_marker()[0] == '@',
        molecule_marker() != atom_marker(),
        molecule_marker() != bond_marker(),
        atom_marker() != bond_marker(),
        forall|m: int| 0 <= m < 17 ==> !is_ws(#[trigger] molecule_marker()[m])
            && molecule_marker()[m] != '\n',
        forall|m: int| 0 <= m < 13 ==> !is_ws(#[trigger] atom_marker()[m]) && atom_marker()[m]
            != '\n',
        forall|m: int| 0 <= m < 13 ==> !is_ws(#[trigger] bond_marker()[m]) && bond_marker()[m]
            != '\n',
{
    reveal_strlit("@<TRIPOS>MOLECULE");
    reveal_strlit("@<TRIPOS>ATOM");
    reveal_strlit("@<TRIPOS>BOND");
    assert(atom_marker()[9] != bond_marker()[9]);
}

/// An atom line reads back the record it was rendered from.
proof fn lemma_atom_line_round_trip(a: AtomV, idx: nat)
    requires
        a.renderable(),
        a.atom_id == idx + 1,
        a.element == element_of(a.at),
    ensures
        spec_parse_atom_line(spec_atom_line(a), idx) == Some(a),
        spec_atom_line(a).len() > 0,
        !is_ws(spec_atom_line(a)[0]),
        !is_ws(spec_atom_line(a).last()),
        forall|m: int| 0 <= m < spec_atom_line(a).len() ==> #[trigger] spec_atom_line(a)[m]
            != '\n',
        spec_atom_line(a)[0] != '@',
{
    let toks = seq![
        spec_dec(a.atom_id as nat),
        a.atom_name,
        a.x,
        a.y,
        a.z,
        a.at,
        seq!['1'],
        seq!['M', 'O', 'L'],
        a.atom_charge,
    ];
    lemma_dec_digits(a.atom_id as nat);
    lemma_digit_seq_good(spec_dec(a.atom_id as nat));
    assert(good_token(seq!['1'])) by {
        lemma_digit_seq_good(seq!['1']);
    }
    assert(good_token(seq!['M', 'O', 'L']));
    assert(forall|i: int| 0 <= i < toks.len() ==> good_token(#[trigger] toks[i]));
    lemma_tokens_join(toks);
    lemma_join_sp_good(toks);
    lemma_val_dec(a.atom_id as nat);
    let line = spec_atom_line(a);
    let ptoks = spec_tokens(line);
    assert(ptoks == toks);
    assert(ptoks.len() == 9);
    assert(ptoks[0].len() > 0 && all_digits(ptoks[0]) && spec_val(ptoks[0]) == idx + 1);
    let parsed = spec_parse_atom_line(line, idx);
    assert(parsed is Some);
    assert(parsed.unwrap().atom_id == a.atom_id);
    assert(parsed.unwrap().atom_name == a.atom_name);
    assert(parsed.unwrap().x == a.x);
    assert(parsed.unwrap().y == a.y);
    assert(parsed.unwrap().z == a.z);
    assert(parsed.unwrap().at == a.at);
    assert(parsed.unwrap().atom_charge == a.atom_charge);
    assert(parsed.unwrap().element == a.element);
    assert(parsed.unwrap() == a);
}

/// A bond line reads back the record it was rendered from.
proof fn lemma_bond_line_round_trip(b: BondV, n_atoms: int)
    requires
        b.renderable(),
        1 <= b.a1 <= n_atoms,
        1 <= b.a2 <= n_atoms,
    ensures
        spec_parse_bond_line(spec_bond_line(b), n_atoms) == Some(b),
        spec_bond_line(b).len() > 0,
        !is_ws(spec_bond_line(b)[0]),
        !is_ws(spec_bond_line(b).last()),
        forall|m: int| 0 <= m < spec_bond_line(b).len() ==> #[trigger] spec_bond_line(b)[m]
            != '\n',
        spec_bond_line(b)[0] != '@',
{
    let toks = seq![
        spec_dec(b.bond_id as nat),
        spec_dec(b.a1 as nat),
        spec_dec(b.a2 as nat),
        b.bt,
    ];
    lemma_dec_digits(b.bond_id as nat);
    lemma_dec_digits(b.a1 as nat);
    lemma_dec_digits(b.a2 as nat);
    lemma_digit_seq_good(spec_dec(b.bond_id as nat));
    lemma_digit_seq_good(spec_dec(b.a1 as nat));
    lemma_digit_seq_good(spec_dec(b.a2 as nat));
    assert(forall|i: int| 0 <= i < toks.len() ==> good_token(#[trigger] toks[i]));
    lemma_tokens_join(toks);
    lemma_join_sp_good(toks);
    lemma_val_dec(b.bond_id as nat);
    lemma_val_dec(b.a1 as nat);
    lemma_val_dec(b.a2 as nat);
    let line = spec_bond_line(b);
    assert(spec_tokens(line) == toks);
    let parsed = spec_parse_bond_line(line, n_atoms);
    assert(parsed is Some);
    assert(parsed.unwrap() == b);
}

/// The counts line of a well-formed graph and what it reads back as.
proof fn lemma_counts_line_round_trip(m: MOL2V)
    requires
        m.wf(),
        m.renderable(),
    ensures
        ({
            let ctoks = spec_tokens(spec_counts_line(m));
            &&& ctoks.len() == 5
            &&& forall|i: int| 0 <= i < ctoks.len() ==> ok_count(#[trigger] ctoks[i])
            &&& spec_val(ctoks[0]) == m.atoms.len()
            &&& spec_val(ctoks[1]) == m.bonds.len()
        }),
        spec_counts_line(m).len() > 0,
        !is_ws(spec_counts_line(m)[0]),
        !is_ws(spec_counts_line(m).last()),
        forall|mm: int| 0 <= mm < spec_counts_line(m).len() ==> #[trigger] spec_counts_line(m)[mm]
            != '\n',
        spec_counts_line(m)[0] != '@',
{
    let toks = seq![
        spec_dec(m.atoms.len()),
        spec_dec(m.bonds.len()),
        seq!['1'],
        seq!['0'],
        seq!['0'],
    ];
    lemma_dec_digits(m.atoms.len());
    lemma_dec_digits(m.bonds.len());
    lemma_digit_seq_good(spec_dec(m.atoms.len()));
    lemma_digit_seq_good(spec_dec(m.bonds.len()));
    lemma_digit_seq_good(seq!['1']);
    lemma_digit_seq_good(seq!['0']);
    assert(forall|i: int| 0 <= i < toks.len() ==> good_token(#[trigger] toks[i]));
    lemma_tokens_join(toks);
    lemma_join_sp_good(toks);
    lemma_val_dec(m.atoms.len());
    lemma_val_dec(m.bonds.len());
    let ctoks = spec_tokens(spec_counts_line(m));
    assert(ctoks == toks);
    assert(spec_val(seq!['1']) == spec_val(seq!['1'].take(0)) * 10 + 1) by {
        assert(is_digit('1') && digit_val('1') == 1);
    }
    assert(spec_val(seq!['1'].take(0)) == 0) by {
        assert(seq!['1'].take(0) =~= Seq::<char>::empty());
    }
    assert(spec_val(seq!['0']) == spec_val(seq!['0'].take(0)) * 10 + 0) by {
        assert(is_digit('0') && digit_val('0') == 0);
    }
    assert(spec_val(seq!['0'].take(0)) == 0) by {
        assert(seq!['0'].take(0) =~= Seq::<char>::empty());
    }
}

/// Facts about the rendered lines needed to read the file back: no line
/// holds a newline, trimming changes nothing, and only the three header
/// lines equal their markers.
#[verifier::rlimit(50)]
proof fn lemma_render_lines_facts(m: MOL2V)
    requires
        m.wf(),
        m.renderable(),
    ensures
        ({
            let rlines = spec_render_lines(m);
            let n = m.atoms.len() as int;
            let nb = m.bonds.len() as int;
            &&& rlines.len() == 7 + n + nb
            &&& forall|i: int, mm: int|
                0 <= i < rlines.len() && 0 <= mm < rlines[i].len() ==> #[trigger] rlines[i][mm]
                    != '\n'
            &&& forall|i: int| 0 <= i < rlines.len() ==> spec_trim(#[trigger] rlines[i]) == rlines[i]
            &&& forall|i: int|
                0 <= i < rlines.len() && i != 0 ==> (#[trigger] rlines[i]) != molecule_marker()
            &&& forall|i: int|
                0 <= i < rlines.len() && i != 5 ==> (#[trigger] rlines[i]) != atom_marker()
            &&& forall|i: int|
                0 <= i < rlines.len() && i != 6 + n ==> (#[trigger] rlines[i]) != bond_marker()
            &&& forall|k: int|
                0 <= k < n ==> spec_parse_atom_line(#[trigger] rlines[6 + k], k as nat) == Some(
                    m.atoms[k],
                )
            &&& forall|k: int|
                0 <= k < nb ==> spec_parse_bond_line(#[trigger] rlines[7 + n + k], n) == Some(
                    m.bonds[k],
                )
        }),
{
    let rlines = spec_render_lines(m);
    let n = m.atoms.len() as int;
    let nb = m.bonds.len() as int;
    lemma_markers();
    lemma_counts_line_round_trip(m);
    assert forall|i: int| 0 <= i < rlines.len() implies line_facts(m, rlines[i], i) by {
        lemma_one_line_facts(m, i);
    }
    assert forall|k: int| 0 <= k < n implies spec_parse_atom_line(
        #[trigger] rlines[6 + k],
        k as nat,
    ) == Some(m.atoms[k]) by {
        assert(m.atoms[k].renderable());
        lemma_atom_line_round_trip(m.atoms[k], k as nat);
    }
    assert forall|k: int| 0 <= k < nb implies spec_parse_bond_line(#[trigger] rlines[7 + n + k], n)
        == Some(m.bonds[k]) by {
        assert(m.bonds[k].renderable());
        lemma_bond_line_round_trip(m.bonds[k], n);
    }
}

/// The per-line facts of `lemma_render_lines_facts`.
spec fn line_facts(m: MOL2V, line: Seq<char>, i: int) -> bool {
    let n = m.atoms.len() as int;
    &&& forall|mm: int| 0 <= mm < line.len() ==> #[trigger] line[mm] != '\n'
    &&& spec_trim(line) == line
    &&& i != 0 ==> line != molecule_marker()
    &&& i != 5 ==> line != atom_marker()
    &&& i != 6 + n ==> line != bond_marker()
}

#[verifier::rlimit(50)]
proof fn lemma_one_line_facts(m: MOL2V, i: int)
    requires
        m.wf(),
        m.renderable(),
        0 <= i < spec_render_lines(m).len(),
    ensures
        line_facts(m, spec_render_lines(m)[i], i),
{
    let rlines = spec_render_lines(m);
    let line = rlines[i];
    let n = m.atoms.len() as int;
    lemma_markers();
    if i == 0 {
        lemma_trim_id(molecule_marker());
    } else if i == 5 {
        lemma_trim_id(atom_marker());
    } else if i == 6 + n {
        lemma_trim_id(bond_marker());
    } else if i == 1 || i == 3 || i == 4 {
        assert(good_field(line));
        assert(line[0] != '@');
        lemma_trim_id(line);
    } else if i == 2 {
        lemma_counts_line_round_trip(m);
        assert(line[0] != '@');
        lemma_trim_id(line);
    } else if 6 <= i < 6 + n {
        assert(m.atoms[i - 6].renderable());
        lemma_atom_line_round_trip(m.atoms[i - 6], (i - 6) as nat);
        assert(line == spec_atom_line(m.atoms[i - 6]));
        assert(line[0] != '@');
        lemma_trim_id(line);
    } else {
        assert(m.bonds[i - 7 - n].renderable());
        lemma_bond_line_round_trip(m.bonds[i - 7 - n], n);
        assert(line == spec_bond_line(m.bonds[i - 7 - n]));
        assert(line[0] != '@');
        lemma_trim_id(line);
    }
}

/// Exporting a well-formed graph and reading the text back yields the
/// same atom and bond records: in particular the atom count, the bond
/// count and every element assignment are preserved.
#[verifier::rlimit(50)]
pub proof fn lemma_mol2_round_trip(m: MOL2V)
    requires
        m.wf(),
        m.renderable(),
    ensures
        spec_parse_mol2(spec_render_mol2(m), m.mol.sys_name) is Some,
        ({
            let r = spec_parse_mol2(spec_render_mol2(m), m.mol.sys_name).unwrap();
            &&& r.atoms == m.atoms
            &&& r.bonds == m.bonds
            &&& r.atoms.len() == m.atoms.len()
            &&& r.bonds.len() == m.bonds.len()
            &&& forall|k: int|
                0 <= k < m.atoms.len() ==> (#[trigger] r.atoms[k]).element == m.atoms[k].element
        }),
{
    let rlines = spec_render_lines(m);
    let n = m.atoms.len() as int;
    let nb = m.bonds.len() as int;
    lemma_markers();
    lemma_counts_line_round_trip(m);
    lemma_render_lines_facts(m);
    lemma_lines_join(rlines);
    assert(spec_split_lines(spec_render_mol2(m)) == rlines);
    let glines = spec_split_lines(spec_render_mol2(m)).map_values(|l: Seq<char>| spec_trim(l));
    assert(glines =~= rlines);
    assert(rlines[0] == molecule_marker());
    assert(rlines[5] == atom_marker());
    assert(rlines[6 + n] == bond_marker());
    lemma_find_line_props(glines, molecule_marker());
    assert(find_line(glines, molecule_marker()) == 0);
    lemma_find_line_props(glines, atom_marker());
    assert(find_line(glines, atom_marker()) == 5);
    lemma_find_line_props(glines, bond_marker());
    assert(find_line(glines, bond_marker()) == 6 + n);
    assert(glines[2] == spec_counts_line(m));
    lemma_parse_atoms_ok(glines, 6, 0, m.atoms);
    lemma_parse_bonds_ok(glines, 7 + n, n, m.bonds);
    assert(spec_parse_mol2(spec_render_mol2(m), m.mol.sys_name) is Some);
}

} // verus!
