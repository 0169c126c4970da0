use gen_rtp::error::GenError;
use gen_rtp::itp::Topol;
use gen_rtp::mol2::MOL2;

/// A chain of `n` carbons: atoms C1..Cn, bonds (1,2)..(n-1,n).
fn chain_mol2(n: usize) -> String {
    let mut s = String::new();
    s.push_str("@<TRIPOS>MOLECULE\nLIG\n");
    s.push_str(&format!("{} {} 1 0 0\nSMALL\nUSER_CHARGES\n", n, n - 1));
    s.push_str("@<TRIPOS>ATOM\n");
    for i in 1..=n {
        s.push_str(&format!("{} C{} 0.0 0.0 0.0 C.3 1 MOL 0.0\n", i, i));
    }
    s.push_str("@<TRIPOS>BOND\n");
    for i in 1..n {
        s.push_str(&format!("{} {} {} 1\n", i, i, i + 1));
    }
    s
}

fn chain_itp(n: usize) -> String {
    let mut s = String::new();
    s.push_str("[ moleculetype ]\nLIG 3\n[ atoms ]\n");
    for i in 1..=n {
        s.push_str(&format!("{} c3 1 LIG X{} {} 0.1\n", i, i, i));
    }
    s.push_str("[ bonds ]\n");
    for i in 1..n {
        s.push_str(&format!("{} {} 1\n", i, i + 1));
    }
    s
}

#[test]
fn scenario_amber_next_residue_boundary() {
    // force field amber, next residue 59..=66, connector 59 named +N:
    // the bond (58,59) is retained with atom 59 printed as +N, and the
    // bond (59,60), both endpoints excluded, is dropped from the
    // template.
    let m = MOL2::from(&chain_mol2(66), "LIG").unwrap();
    let mut t = Topol::from(&chain_itp(66), &m).unwrap();
    let next: Vec<usize> = (59..=66).collect();
    let content = t
        .to_rtp(
            "amber",
            &vec![],
            &next,
            None,
            Some(59),
            &None,
            &Some("+N".to_string()),
        )
        .unwrap();
    assert!(content.contains("C58 +N"));
    assert!(t.bonds.iter().any(|b| b.ai == 58 && b.aj == 59));
    assert!(!t.bonds.iter().any(|b| b.ai == 59 && b.aj == 60));
    // the dropped boundary bond stays visible as a commented line
    assert!(content.contains(";+ +N +C60"));
    // the connector atom appears commented in the atom block
    assert!(content.contains("; +N c3 0.1 59 ; next residue"));
}

#[test]
fn pruning_thresholds_for_bonds_angles_dihedrals() {
    let mut s = String::new();
    s.push_str("[ moleculetype ]\nLIG 3\n[ atoms ]\n");
    for i in 1..=4 {
        s.push_str(&format!("{} c3 1 LIG X{} {} 0.0\n", i, i, i));
    }
    s.push_str("[ bonds ]\n1 2 1\n2 3 1\n");
    s.push_str("[ angles ]\n1 2 3 1\n2 3 4 1\n");
    s.push_str("[ dihedrals ]\n1 2 3 4 9\n");
    let m = MOL2::from(&chain_mol2(4), "LIG").unwrap();

    // excluding {1}: every term keeps at most its allowed count
    let mut t = Topol::from(&s, &m).unwrap();
    t.to_rtp("gromos", &vec![1], &vec![], Some(1), None, &Some("-C".to_string()), &None)
        .unwrap();
    assert_eq!(t.bonds.len(), 2); // one endpoint excluded at most
    assert_eq!(t.angles.len(), 2); // one of three excluded is allowed
    assert_eq!(t.dihedrals.len(), 1); // one of four excluded is allowed

    // excluding {1,2}: the bond (1,2) and the angle (1,2,3) fall, the
    // dihedral with two of four excluded is still retained
    let mut t = Topol::from(&s, &m).unwrap();
    t.to_rtp(
        "gromos",
        &vec![1, 2],
        &vec![],
        Some(1),
        None,
        &Some("-C".to_string()),
        &None,
    )
    .unwrap();
    assert_eq!(t.bonds.len(), 1);
    assert_eq!(t.angles.len(), 1);
    assert_eq!(t.dihedrals.len(), 1);

    // excluding {1,2,3}: the remaining angle and the dihedral fall too
    let mut t = Topol::from(&s, &m).unwrap();
    t.to_rtp(
        "gromos",
        &vec![1, 2, 3],
        &vec![],
        Some(1),
        None,
        &Some("-C".to_string()),
        &None,
    )
    .unwrap();
    assert_eq!(t.bonds.len(), 0);
    assert_eq!(t.angles.len(), 0);
    assert_eq!(t.dihedrals.len(), 0);
}

#[test]
fn unsupported_force_field_is_a_config_error() {
    let m = MOL2::from(&chain_mol2(2), "LIG").unwrap();
    let mut t = Topol::from(&chain_itp(2), &m).unwrap();
    let r = t.to_rtp("charmm", &vec![], &vec![], None, None, &None, &None);
    assert_eq!(r, Err(GenError::ConfigError));
}

#[test]
fn parse_overwrites_atom_names_from_the_graph() {
    let m = MOL2::from(&chain_mol2(3), "LIG").unwrap();
    let t = Topol::from(&chain_itp(3), &m).unwrap();
    // the placeholder names X1..X3 are replaced by the graph's names
    assert_eq!(t.atoms[0].atom, "C1");
    assert_eq!(t.atoms[2].atom, "C3");
    assert_eq!(t.moleculetype, "LIG");
    assert_eq!(t.nrexcl, 3);
}

#[test]
fn parse_reports_reference_to_missing_atom() {
    let m = MOL2::from(&chain_mol2(2), "LIG").unwrap();
    let mut s = String::new();
    s.push_str("[ atoms ]\n1 c3 1 LIG X1 1 0.0\n2 c3 1 LIG X2 2 0.0\n");
    s.push_str("[ bonds ]\n1 9 1\n");
    let r = Topol::from(&s, &m);
    assert_eq!(r.err(), Some(GenError::ReferenceError { id: 9 }));
}

#[test]
fn parse_reports_bad_numeric_field() {
    let m = MOL2::from(&chain_mol2(2), "LIG").unwrap();
    let s = "[ atoms ]\n1 c3 1 LIG X1 1 zero\n";
    let r = Topol::from(s, &m);
    assert!(matches!(r, Err(GenError::FormatError { .. })));
}

#[test]
fn parse_strips_comments_and_ignores_unknown_sections() {
    let m = MOL2::from(&chain_mol2(2), "LIG").unwrap();
    let mut s = String::new();
    s.push_str("; leading comment\n[ defaults ]\n1 2 yes\n");
    s.push_str("[ atoms ]\n1 c3 1 LIG X1 1 0.0 ; a comment\n2 c3 1 LIG X2 2 0.0\n");
    s.push_str("[ bonds ]\n1 2 1 ; bond comment\n");
    let t = Topol::from(&s, &m).unwrap();
    assert_eq!(t.atoms.len(), 2);
    assert_eq!(t.bonds.len(), 1);
}

#[test]
fn parse_reads_optional_coefficients_and_other_sections() {
    let m = MOL2::from(&chain_mol2(4), "LIG").unwrap();
    let mut s = String::new();
    s.push_str("[ atomtypes ]\nc3 6 12.01 0.0 A 0.339 0.45\n");
    s.push_str("[ moleculetype ]\nMOLX 2\n[ atoms ]\n");
    for i in 1..=4 {
        s.push_str(&format!("{} c3 1 LIG X{} {} 0.0 12.01\n", i, i, i));
    }
    s.push_str("[ bonds ]\n1 2 1 0.15 25000\n2 3 1\n");
    s.push_str("[ pairs ]\n1 4 1\n");
    s.push_str("[ constraints ]\n3 4 2 0.1\n");
    s.push_str("[ exclusions ]\n1 2 3\n");
    let t = Topol::from(&s, &m).unwrap();
    assert_eq!(t.atomtypes.len(), 1);
    assert_eq!(t.moleculetype, "MOLX");
    assert_eq!(t.nrexcl, 2);
    assert_eq!(t.bonds[0].c0.as_deref(), Some("0.15"));
    assert_eq!(t.bonds[1].c0, None);
    assert_eq!(t.pairs.len(), 1);
    assert_eq!(t.constraints[0].cs, vec!["0.1".to_string()]);
    assert_eq!(t.exclusions[0].ex_atoms, vec![1, 2, 3]);
}

#[test]
fn function_index_2_is_proper_like_and_carries_a_warning() {
    let m = MOL2::from(&chain_mol2(4), "LIG").unwrap();
    let mut s = String::new();
    s.push_str("[ atoms ]\n");
    for i in 1..=4 {
        s.push_str(&format!("{} c3 1 LIG X{} {} 0.0\n", i, i, i));
    }
    s.push_str("[ dihedrals ]\n1 2 3 4 2 35.0 20.0\n1 2 3 4 4 180.0 4.6 2\n");
    let mut t = Topol::from(&s, &m).unwrap();
    let content = t
        .to_rtp("amber", &vec![], &vec![], None, None, &None, &None)
        .unwrap();
    let dihedrals_at = content.find(" [ dihedrals ]").unwrap();
    let impropers_at = content.find(" [ impropers ]").unwrap();
    let warn_at = content.find("; function index 2").unwrap();
    assert!(dihedrals_at < warn_at && warn_at < impropers_at);
    assert!(content.contains("C1 C2 C3 C4 2 35.0 20.0 ; function index 2"));
    assert!(content[impropers_at..].contains("C1 C2 C3 C4 180.0 4.6 2"));
}

#[test]
fn bondedtypes_header_differs_by_force_field() {
    let m = MOL2::from(&chain_mol2(2), "LIG").unwrap();
    let mut t = Topol::from(&chain_itp(2), &m).unwrap();
    let amber = t
        .to_rtp("amber", &vec![], &vec![], None, None, &None, &None)
        .unwrap();
    assert!(amber.starts_with("[ bondedtypes ]\n"));
    assert!(amber.contains("     1       1          9          4        1         3      1     0"));
    let mut t = Topol::from(&chain_itp(2), &m).unwrap();
    let gromos = t
        .to_rtp("gromos", &vec![], &vec![], None, None, &None, &None)
        .unwrap();
    assert!(gromos.contains("    2       2          1          2"));
    assert!(gromos.contains("[ LIG ]"));
}
