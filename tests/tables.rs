use missile_tables::catalog::{sort_order, MissileFields, SeekerKind};
use missile_tables::names::name_less;
use missile_tables::table::{build_tables, format_row, missile_link, RowStyle, Tables};

fn s(t: &str) -> String {
    t.to_string()
}

fn missile(name: &str, seeker: SeekerKind) -> MissileFields {
    MissileFields {
        name: s(name),
        seeker,
        end_speed: s("1.5"),
        delta_v: s("700"),
        load_factor_max: s("30"),
        req_accel_max: s("25"),
        bands: [s("1"), s("0.5"), s("0"), s("0.25")],
        fov: s("2.5"),
        gate: s("4"),
        lock_angle_max: s("12"),
        angle_max: s("45"),
        warmup_time: s("3"),
        work_time: s("40"),
        cageable: true,
    }
}

fn names_in(rows: &Vec<missile_tables::table::TableRow>) -> Vec<String> {
    rows.iter().map(|r| r.cells[0].clone()).collect()
}

#[test]
fn radar_and_infrared_go_to_their_own_tables() {
    let catalog = vec![missile("A", SeekerKind::Radar), missile("B", SeekerKind::Infrared)];
    let ranges = vec![s("5000"), s("7000")];
    let t = build_tables(&catalog, &ranges);
    assert_eq!(t.radar.len(), 1);
    assert_eq!(t.infrared.len(), 1);
    assert_eq!(t.radar[0].cells[0], "A");
    assert_eq!(t.infrared[0].cells[0], "B");
    assert_eq!(t.radar[0].style, RowStyle::Bright);
    assert_eq!(t.infrared[0].style, RowStyle::Bright);
    assert_eq!(t.radar[0].cells[1], "5000");
    assert_eq!(t.infrared[0].cells[1], "7000");
}

#[test]
fn infrared_row_has_seventeen_cells_in_order() {
    let m = missile("R-60", SeekerKind::Infrared);
    let row = format_row(&m, &s("4321"));
    let expected = vec![
        "R-60", "4321", "1.5", "700", "30", "25", "1", "0.5", "0", "0.25", "2.5", "4", "12", "45",
        "3", "40", "true",
    ];
    assert_eq!(row.len(), 17);
    assert_eq!(row, expected);
}

#[test]
fn radar_row_has_eleven_cells_in_order() {
    let mut m = missile("AIM-7", SeekerKind::Radar);
    m.cageable = false;
    let row = format_row(&m, &s("12000"));
    let expected = vec!["AIM-7", "12000", "1.5", "700", "30", "25", "12", "45", "3", "40", "false"];
    assert_eq!(row.len(), 11);
    assert_eq!(row, expected);
}

#[test]
fn sort_keeps_source_order_of_equal_names() {
    let catalog = vec![
        missile("b", SeekerKind::Radar),
        missile("a", SeekerKind::Radar),
        missile("b", SeekerKind::Infrared),
        missile("a", SeekerKind::Infrared),
    ];
    assert_eq!(sort_order(&catalog), vec![1, 3, 0, 2]);
}

#[test]
fn sort_of_empty_catalog_is_empty() {
    let catalog: Vec<MissileFields> = Vec::new();
    assert!(sort_order(&catalog).is_empty());
    let t = build_tables(&catalog, &Vec::new());
    assert!(t.infrared.is_empty() && t.radar.is_empty());
}

#[test]
fn sort_orders_by_code_point() {
    let catalog = vec![
        missile("R-60M", SeekerKind::Infrared),
        missile("AIM-9L", SeekerKind::Infrared),
        missile("R-60", SeekerKind::Infrared),
        missile("Mistral", SeekerKind::Infrared),
        missile("AIM-9B", SeekerKind::Infrared),
    ];
    assert_eq!(sort_order(&catalog), vec![4, 1, 3, 2, 0]);
}

#[test]
fn name_comparison_is_lexicographic() {
    assert!(name_less("a", "b"));
    assert!(!name_less("b", "a"));
    assert!(name_less("a", "ab"));
    assert!(!name_less("ab", "a"));
    assert!(!name_less("x", "x"));
    assert!(name_less("", "a"));
    assert!(name_less("Z", "a"));
    assert!(name_less("z", "é"));
}

#[test]
fn styles_alternate_per_table() {
    let catalog = vec![
        missile("a", SeekerKind::Infrared),
        missile("b", SeekerKind::Radar),
        missile("c", SeekerKind::Infrared),
        missile("d", SeekerKind::Infrared),
        missile("e", SeekerKind::Radar),
    ];
    let ranges = vec![s("1"), s("2"), s("3"), s("4"), s("5")];
    let t = build_tables(&catalog, &ranges);
    let ir: Vec<RowStyle> = t.infrared.iter().map(|r| r.style).collect();
    let rd: Vec<RowStyle> = t.radar.iter().map(|r| r.style).collect();
    assert_eq!(ir, vec![RowStyle::Bright, RowStyle::Dark, RowStyle::Bright]);
    assert_eq!(rd, vec![RowStyle::Bright, RowStyle::Dark]);
}

#[test]
fn tables_follow_name_order_and_keep_ranges_with_their_missile() {
    let catalog = vec![
        missile("c", SeekerKind::Infrared),
        missile("a", SeekerKind::Infrared),
        missile("b", SeekerKind::Infrared),
    ];
    let ranges = vec![s("300"), s("100"), s("200")];
    let t = build_tables(&catalog, &ranges);
    assert_eq!(names_in(&t.infrared), vec!["a", "b", "c"]);
    let r: Vec<String> = t.infrared.iter().map(|r| r.cells[1].clone()).collect();
    assert_eq!(r, vec!["100", "200", "300"]);
}

fn flatten(t: &Tables) -> Vec<(RowStyle, String, Vec<String>)> {
    t.infrared
        .iter()
        .chain(t.radar.iter())
        .map(|r| (r.style, r.link.clone(), r.cells.clone()))
        .collect()
}

#[test]
fn building_twice_gives_the_same_tables() {
    let catalog = vec![
        missile("b", SeekerKind::Infrared),
        missile("a", SeekerKind::Radar),
        missile("b", SeekerKind::Radar),
        missile("a", SeekerKind::Infrared),
    ];
    let ranges = vec![s("1"), s("2"), s("3"), s("4")];
    let first = build_tables(&catalog, &ranges);
    let second = build_tables(&catalog, &ranges);
    assert_eq!(flatten(&first), flatten(&second));
}

#[test]
fn first_cell_links_to_the_missile_file() {
    assert_eq!(
        missile_link(&s("R-60")),
        "https://github.com/FlareFlo/wt_missile_calc/blob/master/index/missiles/R-60.blkx"
    );
    let t = build_tables(&vec![missile("AIM-9L", SeekerKind::Infrared)], &vec![s("1")]);
    assert_eq!(
        t.infrared[0].link,
        "https://github.com/FlareFlo/wt_missile_calc/blob/master/index/missiles/AIM-9L.blkx"
    );
}
