use gen_rtp::error::GenError;
use gen_rtp::mol2::Molecule;
use gen_rtp::mol2::MOL2;

fn sample_text() -> String {
    let mut s = String::new();
    s.push_str("@<TRIPOS>MOLECULE\n");
    s.push_str("LIG\n");
    s.push_str(" 3 2 1 0 0\n");
    s.push_str("SMALL\n");
    s.push_str("USER_CHARGES\n");
    s.push_str("@<TRIPOS>ATOM\n");
    s.push_str("1 C1 1.0 2.0 3.0 C.3 1 LIG 0.1\n");
    s.push_str("2 O2 -1.5 0.0 0.25 O.3 1 LIG -0.3\n");
    s.push_str("3 H3 0.0 0.0 1e-2 H 1 LIG 0.2\n");
    s.push_str("@<TRIPOS>BOND\n");
    s.push_str("1 1 2 1\n");
    s.push_str("2 1 3 1\n");
    s
}

#[test]
fn parse_reads_atoms_bonds_and_elements() {
    let m = MOL2::from(&sample_text(), "LIG").unwrap();
    assert_eq!(m.atoms.len(), 3);
    assert_eq!(m.bonds.len(), 2);
    assert_eq!(m.atoms[0].atom_name, "C1");
    assert_eq!(m.atoms[0].element, "C");
    assert_eq!(m.atoms[1].element, "O");
    assert_eq!(m.atoms[2].element, "H");
    assert_eq!(m.bonds[0].a1, 1);
    assert_eq!(m.bonds[0].a2, 2);
    assert_eq!(m.mol.sys_name, "LIG");
}

#[test]
fn parse_tolerates_comments_blank_lines_and_short_atom_lines() {
    let mut s = String::new();
    s.push_str("\n@<TRIPOS>MOLECULE\nLIG\n1 0\nSMALL\nUSER_CHARGES\n\n");
    s.push_str("@<TRIPOS>ATOM\n");
    // no residue fields and no charge: the charge defaults
    s.push_str("1 C1 0.0 0.0 0.0 C.3\n");
    s.push_str("@<TRIPOS>BOND\n");
    let m = MOL2::from(&s, "LIG").unwrap();
    assert_eq!(m.atoms.len(), 1);
    assert_eq!(m.atoms[0].atom_charge, "0.0");
}

#[test]
fn parse_rejects_count_mismatch() {
    // header declares 4 atoms but the block runs into the bond marker
    let mut s = String::new();
    s.push_str("@<TRIPOS>MOLECULE\nLIG\n4 1 1 0 0\nSMALL\nUSER_CHARGES\n");
    s.push_str("@<TRIPOS>ATOM\n");
    s.push_str("1 C1 0.0 0.0 0.0 C.3 1 MOL 0.0\n");
    s.push_str("2 C2 0.0 0.0 0.0 C.3 1 MOL 0.0\n");
    s.push_str("@<TRIPOS>BOND\n");
    s.push_str("1 1 2 1\n");
    let r = MOL2::from(&s, "LIG");
    assert!(matches!(r, Err(GenError::FormatError { .. })));
}

#[test]
fn parse_rejects_bond_to_missing_atom() {
    let mut s = String::new();
    s.push_str("@<TRIPOS>MOLECULE\nLIG\n2 1 1 0 0\nSMALL\nUSER_CHARGES\n");
    s.push_str("@<TRIPOS>ATOM\n");
    s.push_str("1 C1 0.0 0.0 0.0 C.3 1 MOL 0.0\n");
    s.push_str("2 C2 0.0 0.0 0.0 C.3 1 MOL 0.0\n");
    s.push_str("@<TRIPOS>BOND\n");
    s.push_str("1 1 7 1\n");
    let r = MOL2::from(&s, "LIG");
    assert!(matches!(r, Err(GenError::FormatError { .. })));
}

#[test]
fn parse_rejects_missing_marker() {
    let r = MOL2::from("no markers here", "LIG");
    assert!(matches!(r, Err(GenError::FormatError { .. })));
}

#[test]
fn parse_rejects_non_dense_atom_ids() {
    let mut s = String::new();
    s.push_str("@<TRIPOS>MOLECULE\nLIG\n2 0 1 0 0\nSMALL\nUSER_CHARGES\n");
    s.push_str("@<TRIPOS>ATOM\n");
    s.push_str("1 C1 0.0 0.0 0.0 C.3 1 MOL 0.0\n");
    s.push_str("5 C5 0.0 0.0 0.0 C.3 1 MOL 0.0\n");
    s.push_str("@<TRIPOS>BOND\n");
    let r = MOL2::from(&s, "LIG");
    assert!(matches!(r, Err(GenError::FormatError { .. })));
}

#[test]
fn export_then_reimport_preserves_counts_and_elements() {
    let m = MOL2::from(&sample_text(), "LIG").unwrap();
    let text = m.to_mol2_string();
    let m2 = MOL2::from(&text, "LIG").unwrap();
    assert_eq!(m2.atoms.len(), m.atoms.len());
    assert_eq!(m2.bonds.len(), m.bonds.len());
    for (a, b) in m.atoms.iter().zip(m2.atoms.iter()) {
        assert_eq!(a.element, b.element);
        assert_eq!(a.atom_name, b.atom_name);
        assert_eq!(a.x, b.x);
        assert_eq!(a.atom_charge, b.atom_charge);
    }
    for (a, b) in m.bonds.iter().zip(m2.bonds.iter()) {
        assert_eq!(a.a1, b.a1);
        assert_eq!(a.a2, b.a2);
        assert_eq!(a.bt, b.bt);
    }
}

#[test]
fn export_normalizes_residue_fields() {
    let m = MOL2::from(&sample_text(), "LIG").unwrap();
    let text = m.to_mol2_string();
    // every atom line carries the synthetic residue id and name
    for line in text.lines().skip(6).take(3) {
        let fields: Vec<&str> = line.split_whitespace().collect();
        assert_eq!(fields[6], "1");
        assert_eq!(fields[7], "MOL");
    }
}

#[test]
fn molecule_new_applies_defaults() {
    let m = Molecule::new("LIG", Some(&4), Some(&3), None, None, None, None, None);
    assert_eq!(m.sys_name, "LIG");
    assert_eq!(m.at_num, 4);
    assert_eq!(m.bond_num, 3);
    assert_eq!(m.sub_struct_num, 0);
    assert_eq!(m.sys_type, "SMALL");
    assert_eq!(m.at_charge, "USER_CHARGES");
}
