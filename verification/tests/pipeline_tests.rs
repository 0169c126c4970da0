use gen_rtp::itp::Topol;
use gen_rtp::mol2::MOL2;

/// A small alanine-like fragment with a previous-residue carbon and a
/// next-residue nitrogen, run through the whole conversion: hydrogen
/// renaming, structure export, template and reconstruction table.
#[test]
fn whole_conversion_run() {
    let mut mol2_text = String::new();
    mol2_text.push_str("@<TRIPOS>MOLECULE\nALA\n7 6 1 0 0\nSMALL\nUSER_CHARGES\n");
    mol2_text.push_str("@<TRIPOS>ATOM\n");
    mol2_text.push_str("1 C0 0.0 0.0 0.0 C.2 1 MOL 0.5\n"); // previous residue
    mol2_text.push_str("2 N1 1.3 0.0 0.0 N.am 1 MOL -0.4\n");
    mol2_text.push_str("3 HN 1.5 0.9 0.0 H 1 MOL 0.3\n");
    mol2_text.push_str("4 CA 2.4 -0.9 0.0 C.3 1 MOL 0.1\n");
    mol2_text.push_str("5 C5 3.7 -0.2 0.0 C.2 1 MOL 0.6\n");
    mol2_text.push_str("6 HA 2.3 -1.5 0.9 H 1 MOL 0.1\n");
    mol2_text.push_str("7 N7 4.8 -0.9 0.0 N.am 1 MOL -0.4\n"); // next residue
    mol2_text.push_str("@<TRIPOS>BOND\n");
    mol2_text.push_str("1 1 2 1\n2 2 3 1\n3 2 4 1\n4 4 5 1\n5 4 6 1\n6 5 7 1\n");
    let mut m = MOL2::from(&mol2_text, "ALA").unwrap();
    m.rename_hydrogens();
    // HN is the single hydrogen of N1: base name "H" + "1"
    assert_eq!(m.atoms[2].atom_name, "H1");
    // HA is the single hydrogen of CA: base name "H" + "A"
    assert_eq!(m.atoms[5].atom_name, "HA");
    let exported = m.to_mol2_string();
    let m2 = MOL2::from(&exported, "ALA").unwrap();
    assert_eq!(m2.atoms.len(), 7);
    assert_eq!(m2.atoms[2].atom_name, "H1");

    let mut itp_text = String::new();
    itp_text.push_str("[ moleculetype ]\nALA 3\n[ atoms ]\n");
    for i in 1..=7 {
        itp_text.push_str(&format!("{} t{} 1 ALA P{} {} 0.0\n", i, i, i, i));
    }
    itp_text.push_str("[ bonds ]\n1 2 1\n2 3 1\n2 4 1\n4 5 1\n4 6 1\n5 7 1\n");
    itp_text.push_str("[ angles ]\n1 2 4 1\n2 4 5 1\n");
    itp_text.push_str("[ dihedrals ]\n1 2 4 5 9\n");
    let mut t = Topol::from(&itp_text, &m).unwrap();

    let prev = vec![1usize];
    let next = vec![7usize];
    let rtp = t
        .to_rtp(
            "amber",
            &prev,
            &next,
            Some(1),
            Some(7),
            &Some("-C".to_string()),
            &Some("+N".to_string()),
        )
        .unwrap();
    // boundary atoms renamed to their connector names everywhere
    assert!(rtp.contains("; -C t1 0.0 1 ; previous residue"));
    assert!(rtp.contains("; +N t7 0.0 7 ; next residue"));
    assert!(rtp.contains("-C N1"));
    assert!(rtp.contains("C5 +N"));
    // all bonds touch at most one boundary atom, so all are retained
    assert_eq!(t.bonds.len(), 6);
    // the angle (1,2,4) has one boundary atom: retained
    assert_eq!(t.angles.len(), 2);
    assert_eq!(t.dihedrals.len(), 1);

    let hdb = m
        .to_hdb(
            &prev,
            &next,
            Some(1),
            Some(7),
            &Some("-C".to_string()),
            &Some("+N".to_string()),
            None,
            None,
            &None,
            &None,
        )
        .unwrap();
    let mut lines = hdb.lines();
    // N1 and CA both have degree 3 with one hydrogen: pattern 1
    assert_eq!(lines.next().unwrap(), "ALA 2");
    assert_eq!(lines.next().unwrap(), "1 1 H1 N1 -C CA");
    assert_eq!(lines.next().unwrap(), "1 1 HA CA N1 C5");
    assert!(lines.next().is_none());
}
