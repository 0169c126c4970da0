use gen_rtp::error::GenError;
use gen_rtp::hdb::HDBItem;
use gen_rtp::mol2::MOL2;

fn mol2_text(types: &[&str], bonds: &[(usize, usize)]) -> String {
    let mut s = String::new();
    s.push_str("@<TRIPOS>MOLECULE\nLIG\n");
    s.push_str(&format!("{} {} 1 0 0\nSMALL\nUSER_CHARGES\n", types.len(), bonds.len()));
    s.push_str("@<TRIPOS>ATOM\n");
    for (i, t) in types.iter().enumerate() {
        let elem: String = t.split('.').next().unwrap().to_string();
        s.push_str(&format!(
            "{} {}{} 0.0 0.0 0.0 {} 1 MOL 0.0\n",
            i + 1,
            elem,
            i + 1,
            t
        ));
    }
    s.push_str("@<TRIPOS>BOND\n");
    for (i, (a, b)) in bonds.iter().enumerate() {
        s.push_str(&format!("{} {} {} 1\n", i + 1, a, b));
    }
    s
}

fn parse(types: &[&str], bonds: &[(usize, usize)]) -> MOL2 {
    MOL2::from(&mol2_text(types, bonds), "LIG").expect("structure text must parse")
}

fn no_excl(m: &mut MOL2) -> Result<String, GenError> {
    m.to_hdb(
        &vec![],
        &vec![],
        None,
        None,
        &None,
        &None,
        None,
        None,
        &None,
        &None,
    )
}

#[test]
fn scenario_tert_butyl_like_heavy_atom() {
    // C1 with heavy neighbors C2, C3, C4 and hydrogen H5: pattern 5,
    // record (1, 5, "H1", [C1, C2, C3, C4]), and H5 is renamed to H1.
    let mut m = parse(
        &["C.3", "C.3", "C.3", "C.3", "H"],
        &[(1, 2), (1, 3), (1, 4), (1, 5)],
    );
    m.rename_hydrogens();
    assert_eq!(m.atoms[4].atom_name, "H1");
    let content = no_excl(&mut m).unwrap();
    let mut lines = content.lines();
    assert_eq!(lines.next().unwrap(), "LIG 1");
    assert_eq!(lines.next().unwrap(), "1 5 H1 C1 C2 C3 C4");
    assert!(lines.next().is_none());
}

#[test]
fn scenario_unclassified_atom_still_renames_hydrogen() {
    // O1 bonded only to H2: degree 1 is not in the table, so no record
    // is emitted, but H2 is still renamed from O1's base name.
    // C3 is present but detached.
    let mut m = parse(&["O.3", "H", "C.3"], &[(1, 2)]);
    m.rename_hydrogens();
    assert_eq!(m.atoms[1].atom_name, "H1");
    let content = no_excl(&mut m).unwrap();
    let mut lines = content.lines();
    assert_eq!(lines.next().unwrap(), "LIG 0");
    assert!(lines.next().is_none());
}

#[test]
fn methyl_hydrogens_get_distinct_position_names() {
    // C1(C2, H3, H4, H5): the three hydrogens get the base name with
    // their one-based positions, pairwise distinct.
    let mut m = parse(
        &["C.3", "C.3", "H", "H", "H"],
        &[(1, 2), (1, 3), (1, 4), (1, 5)],
    );
    m.rename_hydrogens();
    assert_eq!(m.atoms[2].atom_name, "H11");
    assert_eq!(m.atoms[3].atom_name, "H12");
    assert_eq!(m.atoms[4].atom_name, "H13");
    assert_ne!(m.atoms[2].atom_name, m.atoms[3].atom_name);
    assert_ne!(m.atoms[2].atom_name, m.atoms[4].atom_name);
    assert_ne!(m.atoms[3].atom_name, m.atoms[4].atom_name);
}

#[test]
fn single_hydrogen_gets_bare_base_name() {
    let mut m = parse(&["O.3", "C.3", "H"], &[(2, 1), (1, 3)]);
    m.rename_hydrogens();
    assert_eq!(m.atoms[2].atom_name, "H1");
}

#[test]
fn hydroxyl_record_uses_neighbor_of_neighbor() {
    // C2-O1-H3 plus C2-C4: pattern 2 with support [O1, C2, C4].
    let mut m = parse(&["O.3", "C.3", "H", "C.3"], &[(1, 2), (1, 3), (2, 4)]);
    m.rename_hydrogens();
    let content = no_excl(&mut m).unwrap();
    let mut lines = content.lines();
    assert_eq!(lines.next().unwrap(), "LIG 1");
    assert_eq!(lines.next().unwrap(), "1 2 H1 O1 C2 C4");
}

#[test]
fn methylene_record_and_multiplicity() {
    // C1(C2, C3, H4, H5): pattern 6, multiplicity 2, support [C1, C2, C3].
    let mut m = parse(
        &["C.3", "C.3", "C.3", "H", "H"],
        &[(1, 2), (1, 3), (1, 4), (1, 5)],
    );
    let content = no_excl(&mut m).unwrap();
    let mut lines = content.lines();
    assert_eq!(lines.next().unwrap(), "LIG 1");
    assert_eq!(lines.next().unwrap(), "2 6 H1 C1 C2 C3");
}

#[test]
fn hydroxyl_without_second_heavy_neighbor_is_inconsistent() {
    // O1-C2 and O1-H3 with no further heavy neighbor of C2: pattern 2
    // needs a neighbor of the neighbor, so the run aborts.
    let mut m = parse(&["O.3", "C.3", "H"], &[(1, 2), (1, 3)]);
    let r = no_excl(&mut m);
    assert_eq!(r, Err(GenError::TopologyInconsistency { atom_id: 1 }));
}

#[test]
fn excluded_atoms_contribute_no_record() {
    // Two methylene-like carbons; excluding one of them by each side
    // leaves no record.
    let mut m = parse(
        &["C.3", "C.3", "C.3", "H", "H", "H", "H"],
        &[(1, 2), (2, 3), (1, 4), (1, 5), (3, 6), (3, 7)],
    );
    let content = m
        .to_hdb(
            &vec![1],
            &vec![3],
            Some(1),
            Some(3),
            &Some("-C".to_string()),
            &Some("+C".to_string()),
            None,
            None,
            &None,
            &None,
        )
        .unwrap();
    assert_eq!(content.lines().next().unwrap(), "LIG 0");
}

#[test]
fn boundary_renaming_pass_is_idempotent() {
    let mut m = parse(
        &["C.3", "C.3", "C.3", "H", "H"],
        &[(1, 2), (2, 3), (3, 4), (3, 5)],
    );
    let excl = vec![1usize, 2];
    let args = (
        Some(1usize),
        Some("-C".to_string()),
    );
    m.to_hdb(
        &excl,
        &vec![],
        args.0,
        None,
        &args.1.clone().map(Some).unwrap(),
        &None,
        None,
        None,
        &None,
        &None,
    )
    .unwrap();
    let names_once: Vec<String> = m.atoms.iter().map(|a| a.atom_name.clone()).collect();
    m.to_hdb(
        &excl,
        &vec![],
        args.0,
        None,
        &args.1.clone().map(Some).unwrap(),
        &None,
        None,
        None,
        &None,
        &None,
    )
    .unwrap();
    let names_twice: Vec<String> = m.atoms.iter().map(|a| a.atom_name.clone()).collect();
    assert_eq!(names_once, names_twice);
    assert_eq!(names_once[0], "-C");
    assert_eq!(names_once[1], "-C2");
}

#[test]
fn connector_without_name_is_a_config_error() {
    let mut m = parse(&["C.3", "C.3"], &[(1, 2)]);
    let r = m.to_hdb(
        &vec![1],
        &vec![],
        Some(1),
        None,
        &None,
        &None,
        None,
        None,
        &None,
        &None,
    );
    assert_eq!(r, Err(GenError::ConfigError));
}

#[test]
fn connector_outside_its_set_is_a_config_error() {
    let mut m = parse(&["C.3", "C.3"], &[(1, 2)]);
    let r = m.to_hdb(
        &vec![1],
        &vec![],
        Some(2),
        None,
        &Some("-C".to_string()),
        &None,
        None,
        None,
        &None,
        &None,
    );
    assert_eq!(r, Err(GenError::ConfigError));
}

#[test]
fn hdb_item_new_keeps_fields() {
    let it = HDBItem::new(2, 6, "H5".to_string(), vec!["C5".to_string(), "C4".to_string()]);
    assert_eq!(it.h_num, 2);
    assert_eq!(it.h_type, 6);
    assert_eq!(it.h_atom, "H5");
    assert_eq!(it.heavy_atoms, vec!["C5".to_string(), "C4".to_string()]);
}

#[test]
fn adjacent_connector_override_renames_current_residue_atom() {
    // atom 3 is this residue's atom bonded to the previous residue's
    // connector 1; the override renames it outright, and the support
    // lists show the renamed atoms.
    let mut m = parse(
        &["C.3", "C.3", "C.3", "H"],
        &[(1, 3), (2, 3), (3, 4)],
    );
    let content = m
        .to_hdb(
            &vec![1],
            &vec![],
            Some(1),
            None,
            &Some("-C".to_string()),
            &None,
            Some(3),
            None,
            &Some("N".to_string()),
            &None,
        )
        .unwrap();
    assert_eq!(m.atoms[0].atom_name, "-C");
    assert_eq!(m.atoms[2].atom_name, "N");
    let mut lines = content.lines();
    // N (old C3) has degree 3 and one hydrogen: pattern 1, with its
    // first two heavy neighbors -C and C2 as the frame. The base name
    // comes from the renamed atom, whose element is no prefix of it.
    assert_eq!(lines.next().unwrap(), "LIG 1");
    assert_eq!(lines.next().unwrap(), "1 1 H N -C C2");
}

#[test]
fn hydrogen_renaming_pass_is_idempotent() {
    let mut m = parse(
        &["C.3", "C.3", "H", "H", "H", "O.3", "H"],
        &[(1, 2), (1, 3), (1, 4), (1, 5), (2, 6), (6, 7)],
    );
    m.rename_hydrogens();
    let once: Vec<String> = m.atoms.iter().map(|a| a.atom_name.clone()).collect();
    m.rename_hydrogens();
    let twice: Vec<String> = m.atoms.iter().map(|a| a.atom_name.clone()).collect();
    assert_eq!(once, twice);
}
