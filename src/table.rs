use vstd::prelude::*;

use crate::catalog::{
    catalog_order, is_catalog_order, lemma_catalog_order_unique, names_of, sort_order, MissileFields, MissileView,
    SeekerKind,
};

verus! {

/// One column of a result table.
#[derive(Clone, Copy, Debug, PartialEq, Eq, Structural)]
pub enum Column {
    Name,
    Range,
    EndSpeed,
    DeltaV,
    LoadFactorMax,
    ReqAccelMax,
    Band(usize),
    Fov,
    Gate,
    LockAngleMax,
    AngleMax,
    WarmupTime,
    WorkTime,
    Cageable,
}

/// The columns of a table, in display order, for each seeker kind.
pub open spec fn columns(kind: SeekerKind) -> Seq<Column> {
    match kind {
        SeekerKind::Infrared => seq![
            Column::Name,
            Column::Range,
            Column::EndSpeed,
            Column::DeltaV,
            Column::LoadFactorMax,
            Column::ReqAccelMax,
            Column::Band(0),
            Column::Band(1),
            Column::Band(2),
            Column::Band(3),
            Column::Fov,
            Column::Gate,
            Column::LockAngleMax,
            Column::AngleMax,
            Column::WarmupTime,
            Column::WorkTime,
            Column::Cageable,
        ],
        SeekerKind::Radar => seq![
            Column::Name,
            Column::Range,
            Column::EndSpeed,
            Column::DeltaV,
            Column::LoadFactorMax,
            Column::ReqAccelMax,
            Column::LockAngleMax,
            Column::AngleMax,
            Column::WarmupTime,
            Column::WorkTime,
            Column::Cageable,
        ],
    }
}

/// The text of a boolean, as Rust writes it.
pub open spec fn bool_text(b: bool) -> Seq<char> {
    if b {
        "true"@
    } else {
        "false"@
    }
}

/// The text that a column shows for a missile whose rounded range is `range`.
pub open spec fn field_text(m: MissileView, range: Seq<char>, c: Column) -> Seq<char> {
    match c {
        Column::Name => m.name,
        Column::Range => range,
        Column::EndSpeed => m.end_speed,
        Column::DeltaV => m.delta_v,
        Column::LoadFactorMax => m.load_factor_max,
        Column::ReqAccelMax => m.req_accel_max,
        Column::Band(i) => m.bands[i as int],
        Column::Fov => m.fov,
        Column::Gate => m.gate,
        Column::LockAngleMax => m.lock_angle_max,
        Column::AngleMax => m.angle_max,
        Column::WarmupTime => m.warmup_time,
        Column::WorkTime => m.work_time,
        Column::Cageable => bool_text(m.cageable),
    }
}

/// The cells of a missile's row: one per column of its seeker kind.
pub open spec fn row_cells(m: MissileView, range: Seq<char>) -> Seq<Seq<char>> {
    columns(m.seeker).map_values(|c: Column| field_text(m, range, c))
}

/// The text of each string, in order.
pub open spec fn texts(v: Seq<String>) -> Seq<Seq<char>> {
    v.map_values(|s: String| s@)
}

/// A row has exactly one cell per column of its kind, seventeen for infrared and
/// eleven for radar missiles, and the cell at a position always shows the same
/// column for missiles of the same kind.
pub proof fn lemma_row_schema(m: MissileView, range: Seq<char>)
    ensures
        m.seeker == SeekerKind::Infrared ==> row_cells(m, range).len() == 17,
        m.seeker == SeekerKind::Radar ==> row_cells(m, range).len() == 11,
        forall|k: int|
            0 <= k < row_cells(m, range).len() ==> row_cells(m, range)[k] == field_text(
                m,
                range,
                columns(m.seeker)[k],
            ),
{
}

fn bool_string(b: bool) -> (r: String)
    ensures
        r@ == bool_text(b),
{
    if b {
        String::from_str("true")
    } else {
        String::from_str("false")
    }
}

/// The cells of a missile's row, given the text of its rounded range.
pub fn format_row(m: &MissileFields, range: &String) -> (r: Vec<String>)
    ensures
        texts(r@) == row_cells(m@, range@),
{
    let mut r: Vec<String> = Vec::new();
    r.push(m.name.clone());
    r.push(range.clone());
    r.push(m.end_speed.clone());
    r.push(m.delta_v.clone());
    r.push(m.load_factor_max.clone());
    r.push(m.req_accel_max.clone());
    match m.seeker {
        SeekerKind::Infrared => {
            r.push(m.bands[0].clone());
            r.push(m.bands[1].clone());
            r.push(m.bands[2].clone());
            r.push(m.bands[3].clone());
            r.push(m.fov.clone());
            r.push(m.gate.clone());
        },
        SeekerKind::Radar => {},
    }
    r.push(m.lock_angle_max.clone());
    r.push(m.angle_max.clone());
    r.push(m.warmup_time.clone());
    r.push(m.work_time.clone());
    r.push(bool_string(m.cageable));
    assert(texts(r@) =~= row_cells(m@, range@));
    r
}

/// Styling of a table row; the rows of each table alternate, starting bright.
#[derive(Clone, Copy, Debug, PartialEq, Eq, Structural)]
pub enum RowStyle {
    Bright,
    Dark,
}

/// The style of the row at `position` in its table.
pub open spec fn style_at(position: int) -> RowStyle {
    if position % 2 == 0 {
        RowStyle::Bright
    } else {
        RowStyle::Dark
    }
}

/// Where the first cell of a missile's row links to.
pub open spec fn link_of(name: Seq<char>) -> Seq<char> {
    "https://github.com/FlareFlo/wt_missile_calc/blob/master/index/missiles/"@ + name + ".blkx"@
}

/// One row of a result table.
pub struct TableRow {
    pub style: RowStyle,
    pub link: String,
    pub cells: Vec<String>,
}

/// What a `TableRow` holds, as mathematical values.
pub struct RowView {
    pub style: RowStyle,
    pub link: Seq<char>,
    pub cells: Seq<Seq<char>>,
}

impl View for TableRow {
    type V = RowView;

    open spec fn view(&self) -> RowView {
        RowView { style: self.style, link: self.link@, cells: texts(self.cells@) }
    }
}

/// The two result tables.
pub struct Tables {
    pub infrared: Vec<TableRow>,
    pub radar: Vec<TableRow>,
}

/// What `Tables` holds, as mathematical values.
pub struct TablesView {
    pub infrared: Seq<RowView>,
    pub radar: Seq<RowView>,
}

/// The views of a sequence of rows.
pub open spec fn rows_view(rows: Seq<TableRow>) -> Seq<RowView> {
    rows.map_values(|t: TableRow| t@)
}

impl View for Tables {
    type V = TablesView;

    open spec fn view(&self) -> TablesView {
        TablesView { infrared: rows_view(self.infrared@), radar: rows_view(self.radar@) }
    }
}

/// The views of a catalog's records.
pub open spec fn missile_views(ms: Seq<MissileFields>) -> Seq<MissileView> {
    ms.map_values(|m: MissileFields| m@)
}

/// The rows of the table of `kind`, built from the records at the positions in
/// `order`, taken in that order.
pub open spec fn table_rows(
    ms: Seq<MissileView>,
    ranges: Seq<Seq<char>>,
    order: Seq<usize>,
    kind: SeekerKind,
) -> Seq<RowView>
    decreases order.len(),
{
    if order.len() == 0 {
        seq![]
    } else {
        let prev = table_rows(ms, ranges, order.drop_last(), kind);
        let j = order.last() as int;
        if ms[j].seeker == kind {
            prev.push(
                RowView {
                    style: style_at(prev.len() as int),
                    link: link_of(ms[j].name),
                    cells: row_cells(ms[j], ranges[j]),
                },
            )
        } else {
            prev
        }
    }
}

/// Both tables of a catalog whose record at position `j` flew `ranges[j]`.
pub open spec fn tables_of(ms: Seq<MissileFields>, ranges: Seq<String>) -> TablesView {
    let order = catalog_order(names_of(ms));
    TablesView {
        infrared: table_rows(missile_views(ms), texts(ranges), order, SeekerKind::Infrared),
        radar: table_rows(missile_views(ms), texts(ranges), order, SeekerKind::Radar),
    }
}

/// The tables do not depend on how a sorted order was reached: any two sorted
/// orders of the catalog give the same tables, so building them twice from the
/// same catalog and ranges gives the same rows, styles and texts.
pub proof fn lemma_tables_reproducible(
    ms: Seq<MissileFields>,
    ranges: Seq<String>,
    o1: Seq<usize>,
    o2: Seq<usize>,
    kind: SeekerKind,
)
    requires
        is_catalog_order(names_of(ms), o1),
        is_catalog_order(names_of(ms), o2),
    ensures
        table_rows(missile_views(ms), texts(ranges), o1, kind) == table_rows(
            missile_views(ms),
            texts(ranges),
            o2,
            kind,
        ),
        table_rows(missile_views(ms), texts(ranges), o1, SeekerKind::Infrared)
            == tables_of(ms, ranges).infrared,
        table_rows(missile_views(ms), texts(ranges), o1, SeekerKind::Radar)
            == tables_of(ms, ranges).radar,
{
    lemma_catalog_order_unique(names_of(ms), o1, o2);
    lemma_catalog_order_unique(names_of(ms), o1, catalog_order(names_of(ms)));
}

/// The address that a missile's name links to.
pub fn missile_link(name: &String) -> (r: String)
    ensures
        r@ == link_of(name@),
{
    let prefix = String::from_str(
        "https://github.com/FlareFlo/wt_missile_calc/blob/master/index/missiles/",
    );
    prefix.concat(name.as_str()).concat(".blkx")
}

/// Builds the infrared and radar tables of a catalog, where `ranges[j]` is the
/// rounded distance flown by the missile at position `j`.
pub fn build_tables(missiles: &Vec<MissileFields>, ranges: &Vec<String>) -> (r: Tables)
    requires
        ranges.len() == missiles.len(),
    ensures
        r@ == tables_of(missiles@, ranges@),
{
    let order = sort_order(missiles);
    let ghost ms = missile_views(missiles@);
    let ghost rs = texts(ranges@);
    let mut infrared: Vec<TableRow> = Vec::new();
    let mut radar: Vec<TableRow> = Vec::new();
    let mut k: usize = 0;
    while k < order.len()
        invariant
            ms == missile_views(missiles@),
            rs == texts(ranges@),
            ranges.len() == missiles.len(),
            order@.len() == missiles@.len(),
            forall|q: int| 0 <= q < order@.len() ==> order@[q] < missiles@.len(),
            k <= order@.len(),
            rows_view(infrared@) == table_rows(ms, rs, order@.take(k as int), SeekerKind::Infrared),
            rows_view(radar@) == table_rows(ms, rs, order@.take(k as int), SeekerKind::Radar),
        decreases order@.len() - k,
    {
        let j = order[k];
        let m = &missiles[j];
        assert(order@.take(k + 1).drop_last() =~= order@.take(k as int));
        let ghost before_ir = rows_view(infrared@);
        let ghost before_rd = rows_view(radar@);
        match m.seeker {
            SeekerKind::Infrared => {
                let style = if infrared.len() % 2 == 0 {
                    RowStyle::Bright
                } else {
                    RowStyle::Dark
                };
                let row = TableRow { style, link: missile_link(&m.name), cells: format_row(m, &ranges[j]) };
                infrared.push(row);
                assert(rows_view(infrared@) =~= before_ir.push(row@));
            },
            SeekerKind::Radar => {
                let style = if radar.len() % 2 == 0 {
                    RowStyle::Bright
                } else {
                    RowStyle::Dark
                };
                let row = TableRow { style, link: missile_link(&m.name), cells: format_row(m, &ranges[j]) };
                radar.push(row);
                assert(rows_view(radar@) =~= before_rd.push(row@));
            },
        }
        k = k + 1;
    }
    assert(order@.take(order@.len() as int) =~= order@);
    Tables { infrared, radar }
}

} // verus!
