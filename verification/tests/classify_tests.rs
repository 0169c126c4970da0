use gen_rtp::hdb::get_adj_atoms_id;
use gen_rtp::hdb::get_adj_h_id;
use gen_rtp::hdb::get_adj_heavy_id;
use gen_rtp::hdb::get_htype_from_heavy_atom;
use gen_rtp::mol2::MOL2;

/// Builds a structure-file text from atom type labels and bonds;
/// atom k (1-based) is named "<El><k>" after its element.
fn mol2_text(types: &[&str], bonds: &[(usize, usize)]) -> String {
    let mut s = String::new();
    s.push_str("@<TRIPOS>MOLECULE\nLIG\n");
    s.push_str(&format!("{} {} 1 0 0\nSMALL\nUSER_CHARGES\n", types.len(), bonds.len()));
    s.push_str("@<TRIPOS>ATOM\n");
    for (i, t) in types.iter().enumerate() {
        let elem: String = t.split('.').next().unwrap().to_string();
        s.push_str(&format!(
            "{} {}{} 0.0 0.0 0.0 {} 1 MOL 0.0\n",
            i + 1,
            elem,
            i + 1,
            t
        ));
    }
    s.push_str("@<TRIPOS>BOND\n");
    for (i, (a, b)) in bonds.iter().enumerate() {
        s.push_str(&format!("{} {} {} 1\n", i + 1, a, b));
    }
    s
}

fn parse(types: &[&str], bonds: &[(usize, usize)]) -> MOL2 {
    MOL2::from(&mol2_text(types, bonds), "LIG").expect("structure text must parse")
}

#[test]
fn classify_degree_3_one_hydrogen_is_pattern_1() {
    // C1 bonded to C2, C3 and H4: degree 3, one hydrogen.
    let m = parse(&["C.3", "C.3", "C.3", "H"], &[(1, 2), (1, 3), (1, 4)]);
    assert_eq!(get_htype_from_heavy_atom(&m, 1), 1);
}

#[test]
fn classify_degree_2_one_hydrogen_is_pattern_2() {
    // O1 bonded to C2 and H3: hydroxyl-like.
    let m = parse(&["O.3", "C.3", "H"], &[(1, 2), (1, 3)]);
    assert_eq!(get_htype_from_heavy_atom(&m, 1), 2);
}

#[test]
fn classify_degree_3_two_hydrogens_is_pattern_3() {
    let m = parse(&["C.2", "C.2", "H", "H"], &[(1, 2), (1, 3), (1, 4)]);
    assert_eq!(get_htype_from_heavy_atom(&m, 1), 3);
}

#[test]
fn classify_degree_4_three_hydrogens_is_pattern_4() {
    // methyl carbon
    let m = parse(&["C.3", "C.3", "H", "H", "H"], &[(1, 2), (1, 3), (1, 4), (1, 5)]);
    assert_eq!(get_htype_from_heavy_atom(&m, 1), 4);
}

#[test]
fn classify_degree_4_one_hydrogen_is_pattern_5() {
    let m = parse(
        &["C.3", "C.3", "C.3", "C.3", "H"],
        &[(1, 2), (1, 3), (1, 4), (1, 5)],
    );
    assert_eq!(get_htype_from_heavy_atom(&m, 1), 5);
}

#[test]
fn classify_degree_4_two_hydrogens_is_pattern_6() {
    // methylene carbon
    let m = parse(&["C.3", "C.3", "C.3", "H", "H"], &[(1, 2), (1, 3), (1, 4), (1, 5)]);
    assert_eq!(get_htype_from_heavy_atom(&m, 1), 6);
}

#[test]
fn classify_unmatched_pairs_are_unclassified() {
    // degree 1, one hydrogen: not in the table
    let m = parse(&["O.3", "H"], &[(1, 2)]);
    assert_eq!(get_htype_from_heavy_atom(&m, 1), 0);
    // degree 4, four hydrogens: not in the table
    let m = parse(&["C.3", "H", "H", "H", "H"], &[(1, 2), (1, 3), (1, 4), (1, 5)]);
    assert_eq!(get_htype_from_heavy_atom(&m, 1), 0);
    // degree 2, two hydrogens: not in the table
    let m = parse(&["O.3", "H", "H"], &[(1, 2), (1, 3)]);
    assert_eq!(get_htype_from_heavy_atom(&m, 1), 0);
    // no neighbors at all
    let m = parse(&["C.3", "C.3"], &[]);
    assert_eq!(get_htype_from_heavy_atom(&m, 1), 0);
}

#[test]
fn adjacency_follows_bond_list_order_both_directions() {
    let m = parse(
        &["C.3", "C.3", "C.3", "H"],
        &[(2, 1), (1, 3), (4, 1)],
    );
    assert_eq!(get_adj_atoms_id(&m, 1), vec![2, 3, 4]);
    assert_eq!(get_adj_heavy_id(&m, 1), vec![2, 3]);
    assert_eq!(get_adj_h_id(&m, 1), vec![4]);
    assert_eq!(get_adj_atoms_id(&m, 2), vec![1]);
}
