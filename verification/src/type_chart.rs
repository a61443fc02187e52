//! The chart: an ordered list of type names and, for each ordered pair of
//! them, what is known of how the first affects the second.

use crate::effectiveness::{effectiveness_string_to_f32, label_value, ChartError, Effectiveness};
use vstd::prelude::*;

verus! {

/// The texts of a run of strings.
pub open spec fn texts(v: Seq<String>) -> Seq<Seq<char>> {
    Seq::new(v.len(), |i: int| v[i]@)
}

/// The values of a grid of cells.
pub open spec fn grid(rows: Seq<Vec<Effectiveness>>) -> Seq<Seq<Effectiveness>> {
    Seq::new(rows.len(), |i: int| rows[i]@)
}

/// A chart as a mathematical value: the names in the order in which they were
/// added, and the matrix from attacker to defender to effectiveness.
#[verifier::ext_equal]
pub struct ChartView {
    pub type_order: Seq<Seq<char>>,
    pub matrix: Map<Seq<char>, Map<Seq<char>, Effectiveness>>,
}

impl ChartView {
    /// The type is in the chart.
    pub open spec fn has(self, name: Seq<char>) -> bool {
        self.type_order.contains(name)
    }

    /// What is recorded of `attacker` against `defender`.
    pub open spec fn cell(self, attacker: Seq<char>, defender: Seq<char>) -> Effectiveness {
        self.matrix[attacker][defender]
    }

    /// No name occurs twice, the matrix has one row for each name and each
    /// row one entry for each name, and every entry is unknown or one of the
    /// eight labelled multipliers.
    pub open spec fn is_valid(self) -> bool {
        &&& self.type_order.no_duplicates()
        &&& forall|a: Seq<char>| #[trigger] self.matrix.dom().contains(a) <==> self.has(a)
        &&& forall|a: Seq<char>, d: Seq<char>|
            self.has(a) ==> (#[trigger] self.matrix[a].dom().contains(d) <==> self.has(d))
        &&& forall|a: Seq<char>, d: Seq<char>|
            self.has(a) && self.has(d) ==> (#[trigger] self.matrix[a][d]).is_valid()
    }

    /// The chart over the names of `order` whose entries are given by `at`.
    pub open spec fn over(
        order: Seq<Seq<char>>,
        at: spec_fn(Seq<char>, Seq<char>) -> Effectiveness,
    ) -> ChartView {
        ChartView {
            type_order: order,
            matrix: Map::new(
                |a: Seq<char>| order.contains(a),
                |a: Seq<char>| Map::new(|d: Seq<char>| order.contains(d), |d: Seq<char>| at(a, d)),
            ),
        }
    }

    /// The chart without any type.
    pub open spec fn empty() -> ChartView {
        ChartView { type_order: Seq::empty(), matrix: Map::empty() }
    }

    /// The chart with `name` added as its last type: every entry in the new
    /// row and in the new column is unknown, every other entry is kept.
    pub open spec fn with_type(self, name: Seq<char>) -> ChartView {
        ChartView::over(
            self.type_order.push(name),
            |a: Seq<char>, d: Seq<char>|
                if a == name || d == name {
                    Effectiveness::Unknown
                } else {
                    self.matrix[a][d]
                },
        )
    }

    /// The chart without `name`: its row and its column are gone, every other
    /// entry and the order of the other names are kept.
    pub open spec fn without_type(self, name: Seq<char>) -> ChartView {
        ChartView::over(
            self.type_order.remove(self.type_order.index_of(name)),
            |a: Seq<char>, d: Seq<char>| self.matrix[a][d],
        )
    }

    /// The chart with one entry replaced.
    pub open spec fn with_cell(
        self,
        attacker: Seq<char>,
        defender: Seq<char>,
        value: Effectiveness,
    ) -> ChartView {
        ChartView {
            type_order: self.type_order,
            matrix: self.matrix.insert(attacker, self.matrix[attacker].insert(defender, value)),
        }
    }

    /// What adding `name` answers, and the chart after it: a name that the
    /// chart has is refused and nothing changes.
    pub open spec fn add_type(self, name: Seq<char>) -> (Result<(), ChartError>, ChartView) {
        if self.has(name) {
            (Err(ChartError::AlreadyExists), self)
        } else {
            (Ok(()), self.with_type(name))
        }
    }

    /// What removing `name` answers, and the chart after it: a name that the
    /// chart lacks is refused and nothing changes.
    pub open spec fn remove_type(self, name: Seq<char>) -> (Result<(), ChartError>, ChartView) {
        if self.has(name) {
            (Ok(()), self.without_type(name))
        } else {
            (Err(ChartError::NotFound), self)
        }
    }

    /// What recording the value written as `label` answers, and the chart
    /// after it: a name that the chart lacks is refused first, then a text
    /// that is no label, and on either nothing changes.
    pub open spec fn set_effectiveness(
        self,
        attacker: Seq<char>,
        defender: Seq<char>,
        label: Seq<char>,
    ) -> (Result<(), ChartError>, ChartView) {
        if !self.has(attacker) || !self.has(defender) {
            (Err(ChartError::NotFound), self)
        } else {
            match label_value(label) {
                None => (Err(ChartError::InvalidLabel), self),
                Some(value) => (Ok(()), self.with_cell(attacker, defender, value)),
            }
        }
    }

    /// The chart of the names `order` whose entry for the names at `i` and
    /// `j` is `cells[i][j]`.
    pub open spec fn from_grid(order: Seq<Seq<char>>, cells: Seq<Seq<Effectiveness>>) -> ChartView {
        ChartView::over(
            order,
            |a: Seq<char>, d: Seq<char>| cells[order.index_of(a)][order.index_of(d)],
        )
    }
}

/// In a run without duplicates a name is found where it stands.
pub proof fn lemma_index_of_unique(order: Seq<Seq<char>>, i: int)
    requires
        order.no_duplicates(),
        0 <= i < order.len(),
    ensures
        order.index_of(order[i]) == i,
        order.contains(order[i]),
{
    let j = order.index_of(order[i]);
    assert(0 <= j < order.len() && order[j] == order[i]);
}

/// A name that the run holds is found at a place that holds it.
pub proof fn lemma_index_of_contained(order: Seq<Seq<char>>, name: Seq<char>)
    requires
        order.contains(name),
    ensures
        0 <= order.index_of(name) < order.len(),
        order[order.index_of(name)] == name,
{
}

/// The names are distinct, and `cells` is square over them with entries that
/// a chart may hold.
pub open spec fn grid_fits(order: Seq<Seq<char>>, cells: Seq<Seq<Effectiveness>>) -> bool {
    &&& order.no_duplicates()
    &&& cells.len() == order.len()
    &&& forall|i: int| 0 <= i < cells.len() ==> (#[trigger] cells[i]).len() == order.len()
    &&& forall|i: int, j: int|
        0 <= i < order.len() && 0 <= j < order.len() ==> (#[trigger] cells[i][j]).is_valid()
}

/// A chart made from a fitting grid is valid.
pub proof fn lemma_from_grid_valid(order: Seq<Seq<char>>, cells: Seq<Seq<Effectiveness>>)
    requires
        grid_fits(order, cells),
    ensures
        ChartView::from_grid(order, cells).is_valid(),
{
    let v = ChartView::from_grid(order, cells);
    assert forall|a: Seq<char>, d: Seq<char>| v.has(a) && v.has(d) implies (
    #[trigger] v.matrix[a][d]).is_valid() by {
        lemma_index_of_contained(order, a);
        lemma_index_of_contained(order, d);
    }
}

/// Taking one name out of a run of distinct names leaves them distinct.
pub proof fn lemma_remove_keeps_distinct(order: Seq<Seq<char>>, at: int)
    requires
        order.no_duplicates(),
        0 <= at < order.len(),
    ensures
        order.remove(at).no_duplicates(),
        !order.remove(at).contains(order[at]),
{
    let rest = order.remove(at);
    assert forall|i: int, j: int| 0 <= i < rest.len() && 0 <= j < rest.len() && i != j implies rest[i]
        != rest[j] by {
        let oi = if i < at { i } else { i + 1 };
        let oj = if j < at { j } else { j + 1 };
        assert(rest[i] == order[oi] && rest[j] == order[oj]);
    }
    assert forall|i: int| 0 <= i < rest.len() implies rest[i] != order[at] by {
        let oi = if i < at { i } else { i + 1 };
        assert(rest[i] == order[oi]);
    }
}

/// Whether no name occurs twice.
pub fn distinct(names: &Vec<String>) -> (r: bool)
    ensures
        r == texts(names@).no_duplicates(),
{
    let ghost order = texts(names@);
    let mut i: usize = 0;
    while i < names.len()
        invariant
            i <= names.len(),
            order == texts(names@),
            forall|a: int, b: int| 0 <= a < b < i ==> order[a] != order[b],
        decreases names.len() - i,
    {
        let mut j: usize = 0;
        while j < i
            invariant
                j <= i < names.len(),
                order == texts(names@),
                forall|a: int| 0 <= a < j ==> order[a] != order[i as int],
            decreases i - j,
        {
            if names[j] == names[i] {
                assert(order[j as int] == order[i as int]);
                return false;
            }
            j = j + 1;
        }
        i = i + 1;
    }
    true
}

/// Whether the grid has `width` rows of `width` entries each, all of them
/// unknown or one of the eight labelled multipliers.
pub fn square(rows: &Vec<Vec<Effectiveness>>, width: usize) -> (r: bool)
    ensures
        r == {
            let cells = grid(rows@);
            &&& cells.len() == width
            &&& forall|i: int| 0 <= i < cells.len() ==> (#[trigger] cells[i]).len() == width
            &&& forall|i: int, j: int|
                0 <= i < width && 0 <= j < width ==> (#[trigger] cells[i][j]).is_valid()
        },
{
    if rows.len() != width {
        return false;
    }
    let ghost cells = grid(rows@);
    let mut i: usize = 0;
    while i < width
        invariant
            i <= width,
            rows.len() == width,
            cells == grid(rows@),
            forall|k: int| 0 <= k < i ==> (#[trigger] cells[k]).len() == width,
            forall|k: int, j: int| 0 <= k < i && 0 <= j < width ==> (#[trigger] cells[k][j]).is_valid(),
        decreases width - i,
    {
        if rows[i].len() != width {
            assert(cells[i as int].len() != width);
            return false;
        }
        let mut j: usize = 0;
        while j < width
            invariant
                j <= width,
                i < width,
                rows.len() == width,
                rows[i as int].len() == width,
                cells == grid(rows@),
                forall|c: int| 0 <= c < j ==> (#[trigger] cells[i as int][c]).is_valid(),
            decreases width - j,
        {
            if !rows[i][j].valid() {
                assert(!cells[i as int][j as int].is_valid());
                return false;
            }
            j = j + 1;
        }
        i = i + 1;
    }
    true
}

/// A valid chart is the chart of its names and of its entries laid out over
/// them.
pub proof fn lemma_chart_is_its_grid(chart: ChartView, cells: Seq<Seq<Effectiveness>>)
    requires
        chart.is_valid(),
        cells.len() == chart.type_order.len(),
        forall|i: int|
            0 <= i < cells.len() ==> (#[trigger] cells[i]).len() == chart.type_order.len(),
        forall|i: int, j: int|
            0 <= i < cells.len() && 0 <= j < cells.len() ==> #[trigger] cells[i][j] == chart.cell(
                chart.type_order[i],
                chart.type_order[j],
            ),
    ensures
        ChartView::from_grid(chart.type_order, cells) == chart,
        grid_fits(chart.type_order, cells),
{
    let order = chart.type_order;
    let made = ChartView::from_grid(order, cells);
    assert forall|i: int, j: int| 0 <= i < order.len() && 0 <= j < order.len() implies (
    #[trigger] cells[i][j]).is_valid() by {
        assert(chart.has(order[i]) && chart.has(order[j]));
        assert(chart.matrix[order[i]][order[j]].is_valid());
    }
    assert forall|a: Seq<char>| made.matrix.dom().contains(a) implies #[trigger] made.matrix[a]
        =~= chart.matrix[a] by {
        assert(chart.matrix.dom().contains(a));
        lemma_index_of_contained(order, a);
        assert forall|d: Seq<char>| made.matrix[a].dom().contains(d)
            == #[trigger] chart.matrix[a].dom().contains(d) by {}
        assert forall|d: Seq<char>| made.matrix[a].dom().contains(d) implies made.matrix[a][d]
            == chart.matrix[a][d] by {
            lemma_index_of_contained(order, d);
        }
    }
    assert(made.matrix.dom() =~= chart.matrix.dom());
    assert(made.matrix =~~= chart.matrix);
}

/// Adding a type that the chart lacks and removing it again gives the chart
/// as it was: the same names in the same order and every entry unchanged.
pub proof fn law_add_then_remove(chart: ChartView, name: Seq<char>)
    requires
        chart.is_valid(),
        !chart.has(name),
    ensures
        chart.add_type(name).0 is Ok,
        chart.add_type(name).1.remove_type(name) == (Ok::<(), ChartError>(()), chart),
{
    let added = chart.with_type(name);
    let order = chart.type_order;
    assert(added.type_order[order.len() as int] == name);
    assert(added.type_order.no_duplicates());
    lemma_index_of_unique(added.type_order, order.len() as int);
    let back = added.without_type(name);
    assert(back.type_order =~= order);
    assert forall|a: Seq<char>| order.contains(a) implies added.type_order.contains(a) by {
        lemma_index_of_contained(order, a);
        assert(added.type_order[order.index_of(a)] == a);
    }
    assert forall|a: Seq<char>| back.matrix.dom().contains(a) implies #[trigger] back.matrix[a]
        =~= chart.matrix[a] by {
        assert(chart.matrix.dom().contains(a));
        assert forall|d: Seq<char>| back.matrix[a].dom().contains(d)
            == #[trigger] chart.matrix[a].dom().contains(d) by {}
    }
    assert(back.matrix.dom() =~= chart.matrix.dom());
    assert(back.matrix =~~= chart.matrix);
}

/// Adding the same type twice: the second call reports that the type exists
/// and leaves the chart as the first call made it.
pub proof fn law_add_twice(chart: ChartView, name: Seq<char>)
    ensures
        chart.add_type(name).1.add_type(name) == (
            Err::<(), ChartError>(ChartError::AlreadyExists),
            chart.add_type(name).1,
        ),
{
    if !chart.has(name) {
        let added = chart.with_type(name);
        assert(added.type_order[chart.type_order.len() as int] == name);
    }
}

/// After a type is added, nothing is known of it: its entry against every
/// type, every type's entry against it, and its entry against itself are
/// unknown, and every entry between the other types is as before.
pub proof fn law_added_type_is_unknown(chart: ChartView, name: Seq<char>, other: Seq<char>)
    requires
        chart.is_valid(),
        !chart.has(name),
        chart.has(other),
    ensures
        chart.add_type(name).1.is_valid(),
        chart.add_type(name).1.has(name),
        chart.add_type(name).1.has(other),
        chart.add_type(name).1.cell(other, name) == Effectiveness::Unknown,
        chart.add_type(name).1.cell(name, other) == Effectiveness::Unknown,
        chart.add_type(name).1.cell(name, name) == Effectiveness::Unknown,
        forall|second: Seq<char>|
            chart.has(second) ==> #[trigger] chart.add_type(name).1.cell(other, second)
                == chart.cell(other, second),
{
    let added = chart.with_type(name);
    let order = chart.type_order;
    assert(added.type_order[order.len() as int] == name);
    assert forall|a: Seq<char>| order.contains(a) implies added.type_order.contains(a) by {
        lemma_index_of_contained(order, a);
        assert(added.type_order[order.index_of(a)] == a);
    }
    assert forall|a: Seq<char>| added.type_order.contains(a) implies order.contains(a) || a
        == name by {
        lemma_index_of_contained(added.type_order, a);
        let i = added.type_order.index_of(a);
        if i < order.len() {
            assert(order[i] == a);
        }
    }
    assert(added.type_order.no_duplicates());
}

/// The chart of type names and effectiveness values.
#[derive(Debug)]
pub struct TypeChart {
    type_list: Vec<String>,
    rows: Vec<Vec<Effectiveness>>,
}

impl View for TypeChart {
    type V = ChartView;

    closed spec fn view(&self) -> ChartView {
        ChartView::from_grid(texts(self.type_list@), grid(self.rows@))
    }
}

impl TypeChart {
    /// The chart is well formed: its names are distinct and its grid is
    /// square over them.
    pub closed spec fn wf(&self) -> bool {
        grid_fits(texts(self.type_list@), grid(self.rows@))
    }

    /// The grid of a well-formed chart, row by row in the order of the names.
    pub closed spec fn cells(&self) -> Seq<Seq<Effectiveness>> {
        grid(self.rows@)
    }

    /// A well-formed chart is a valid one, made of its names and its grid.
    pub proof fn lemma_wf(&self)
        requires
            self.wf(),
        ensures
            self@.is_valid(),
            grid_fits(self@.type_order, self.cells()),
            self@ == ChartView::from_grid(self@.type_order, self.cells()),
    {
        lemma_from_grid_valid(texts(self.type_list@), grid(self.rows@));
    }

    /// The chart without any type.
    pub fn empty() -> (chart: TypeChart)
        ensures
            chart.wf(),
            chart@ == ChartView::empty(),
    {
        let chart = TypeChart { type_list: Vec::new(), rows: Vec::new() };
        proof {
            assert(chart@.type_order =~= Seq::<Seq<char>>::empty());
            assert(chart@.matrix =~= Map::<Seq<char>, Map<Seq<char>, Effectiveness>>::empty());
        }
        chart
    }

    /// The chart of the given names, in their order, whose entry for the
    /// names at `i` and `j` is `rows[i][j]`. There is such a chart only where
    /// the names are distinct and the grid is square over them with entries
    /// that a chart may hold.
    pub fn new(rows: Vec<Vec<Effectiveness>>, type_list: Vec<String>) -> (chart: Option<TypeChart>)
        ensures
            chart is Some <==> grid_fits(texts(type_list@), grid(rows@)),
            chart is Some ==> chart->0.wf() && chart->0@ == ChartView::from_grid(
                texts(type_list@),
                grid(rows@),
            ),
    {
        if distinct(&type_list) && square(&rows, type_list.len()) {
            Some(TypeChart { type_list, rows })
        } else {
            None
        }
    }

    /// The chart of names and a grid that are known to fit.
    pub(crate) fn assemble(rows: Vec<Vec<Effectiveness>>, type_list: Vec<String>) -> (chart:
        TypeChart)
        requires
            grid_fits(texts(type_list@), grid(rows@)),
        ensures
            chart.wf(),
            chart@ == ChartView::from_grid(texts(type_list@), grid(rows@)),
    {
        TypeChart { type_list, rows }
    }

    /// The names, in their order.
    pub fn get_type_list(&self) -> (names: Vec<String>)
        ensures
            texts(names@) == self@.type_order,
    {
        let mut names: Vec<String> = Vec::new();
        let mut i: usize = 0;
        while i < self.type_list.len()
            invariant
                i <= self.type_list.len(),
                names@.len() == i,
                forall|k: int| 0 <= k < i ==> (#[trigger] names@[k])@ == self.type_list@[k]@,
            decreases self.type_list.len() - i,
        {
            names.push(self.type_list[i].clone());
            i = i + 1;
        }
        assert(texts(names@) =~= texts(self.type_list@));
        names
    }

    /// The grid, row by row in the order of the names: the entry at `i` and
    /// `j` is what is recorded of the type at `i` against the type at `j`.
    pub fn get_type_map(&self) -> (rows: Vec<Vec<Effectiveness>>)
        ensures
            grid(rows@) == self.cells(),
    {
        let mut rows: Vec<Vec<Effectiveness>> = Vec::new();
        let mut i: usize = 0;
        while i < self.rows.len()
            invariant
                i <= self.rows.len(),
                rows@.len() == i,
                forall|k: int| 0 <= k < i ==> (#[trigger] rows@[k])@ == self.rows@[k]@,
            decreases self.rows.len() - i,
        {
            let mut row: Vec<Effectiveness> = Vec::new();
            let mut j: usize = 0;
            while j < self.rows[i].len()
                invariant
                    i < self.rows.len(),
                    j <= self.rows[i as int].len(),
                    row@.len() == j,
                    forall|c: int| 0 <= c < j ==> row@[c] == self.rows@[i as int]@[c],
                decreases self.rows[i as int].len() - j,
            {
                row.push(self.rows[i][j]);
                j = j + 1;
            }
            assert(row@ =~= self.rows@[i as int]@);
            rows.push(row);
            i = i + 1;
        }
        assert(grid(rows@) =~= grid(self.rows@));
        rows
    }

    /// Whether the chart has no type.
    pub fn is_empty(&self) -> (r: bool)
        ensures
            r == (self@.type_order.len() == 0),
    {
        self.type_list.len() == 0
    }

    /// The number of types.
    pub fn len(&self) -> (n: usize)
        ensures
            n == self@.type_order.len(),
    {
        self.type_list.len()
    }

    /// The name of the type at `index`.
    pub fn name_at(&self, index: usize) -> (name: &String)
        requires
            index < self@.type_order.len(),
        ensures
            name@ == self@.type_order[index as int],
    {
        &self.type_list[index]
    }

    /// The entry for the attacker at `row` and the defender at `column`.
    pub fn entry(&self, row: usize, column: usize) -> (value: Effectiveness)
        requires
            self.wf(),
            row < self@.type_order.len(),
            column < self@.type_order.len(),
        ensures
            value == self@.cell(self@.type_order[row as int], self@.type_order[column as int]),
            value == self.cells()[row as int][column as int],
            value.is_valid(),
    {
        proof {
            let order = texts(self.type_list@);
            lemma_index_of_unique(order, row as int);
            lemma_index_of_unique(order, column as int);
            assert(grid(self.rows@)[row as int] == self.rows@[row as int]@);
        }
        self.rows[row][column]
    }

    /// Where in the order `name` stands, if the chart has it.
    pub fn position(&self, name: &String) -> (found: Option<usize>)
        ensures
            match found {
                Some(i) => i < self@.type_order.len() && self@.type_order[i as int] == name@,
                None => !self@.has(name@),
            },
            self.wf() && found is Some ==> found->0 == self@.type_order.index_of(name@),
    {
        let mut i: usize = 0;
        while i < self.type_list.len()
            invariant
                i <= self.type_list.len(),
                forall|k: int| 0 <= k < i ==> texts(self.type_list@)[k] != name@,
            decreases self.type_list.len() - i,
        {
            if self.type_list[i] == *name {
                proof {
                    if self.wf() {
                        lemma_index_of_unique(texts(self.type_list@), i as int);
                    }
                }
                return Some(i);
            }
            i = i + 1;
        }
        None
    }

    /// Adds a type as the last one. Every entry of its row and of its column
    /// is unknown. A name that the chart has already is refused with
    /// `AlreadyExists`, and the chart stays as it was.
    pub fn add_new_type(&mut self, name: &String) -> (r: Result<(), ChartError>)
        requires
            old(self).wf(),
        ensures
            final(self).wf(),
            (r, final(self)@) == old(self)@.add_type(name@),
            r is Err ==> *final(self) == *old(self),
    {
        if self.position(name).is_some() {
            return Err(ChartError::AlreadyExists);
        }
        let ghost old_order = texts(self.type_list@);
        let ghost old_cells = grid(self.rows@);
        let n = self.rows.len();
        self.type_list.push(name.clone());
        let ghost order = texts(self.type_list@);
        assert(order =~= old_order.push(name@));
        let width = self.type_list.len();
        let mut i: usize = 0;
        while i < n
            invariant
                i <= n,
                n == old_cells.len(),
                self.rows@.len() == n,
                texts(self.type_list@) == order,
                forall|k: int| 0 <= k < i ==> (#[trigger] self.rows@[k])@ == old_cells[k].push(
                    Effectiveness::Unknown,
                ),
                forall|k: int| i <= k < n ==> (#[trigger] self.rows@[k])@ == old_cells[k],
            decreases n - i,
        {
            self.rows[i].push(Effectiveness::Unknown);
            i = i + 1;
        }
        let mut row: Vec<Effectiveness> = Vec::new();
        let mut j: usize = 0;
        while j < width
            invariant
                j <= width,
                row@.len() == j,
                forall|k: int| 0 <= k < j ==> row@[k] == Effectiveness::Unknown,
            decreases width - j,
        {
            row.push(Effectiveness::Unknown);
            j = j + 1;
        }
        self.rows.push(row);
        proof {
            let cells = grid(self.rows@);
            assert(order.no_duplicates());
            assert(grid_fits(order, cells));
            let want = old(self)@.with_type(name@);
            assert forall|a: Seq<char>, d: Seq<char>| order.contains(a) && order.contains(d) implies 
                self@.matrix[a][d] == want.matrix[a][d] by {
                lemma_index_of_contained(order, a);
                lemma_index_of_contained(order, d);
                let ia = order.index_of(a);
                let id = order.index_of(d);
                if a != name@ && d != name@ {
                    assert(old_order[ia] == a && old_order[id] == d);
                    lemma_index_of_unique(old_order, ia);
                    lemma_index_of_unique(old_order, id);
                }
            }
            assert(self@.matrix =~~= want.matrix);
        }
        Ok(())
    }

    /// Removes a type with its row and its column. A name that the chart does
    /// not have is refused with `NotFound`, and the chart stays as it was.
    pub fn remove_existing_type(&mut self, name: &String) -> (r: Result<(), ChartError>)
        requires
            old(self).wf(),
        ensures
            final(self).wf(),
            (r, final(self)@) == old(self)@.remove_type(name@),
            r is Err ==> *final(self) == *old(self),
    {
        let at = match self.position(name) {
            None => {
                return Err(ChartError::NotFound);
            },
            Some(at) => at,
        };
        let ghost old_order = texts(self.type_list@);
        let ghost old_cells = grid(self.rows@);
        self.type_list.remove(at);
        self.rows.remove(at);
        let ghost order = texts(self.type_list@);
        assert(order =~= old_order.remove(at as int));
        let n = self.rows.len();
        let mut i: usize = 0;
        while i < n
            invariant
                i <= n,
                at <= n,
                n + 1 == old_cells.len(),
                self.rows@.len() == n,
                texts(self.type_list@) == order,
                forall|k: int| 0 <= k < old_cells.len() ==> (#[trigger] old_cells[k]).len() == n + 1,
                forall|k: int|
                    0 <= k < i ==> (#[trigger] self.rows@[k])@ == old_cells[if k < at {
                        k
                    } else {
                        k + 1
                    }].remove(at as int),
                forall|k: int|
                    i <= k < n ==> (#[trigger] self.rows@[k])@ == old_cells[if k < at {
                        k
                    } else {
                        k + 1
                    }],
            decreases n - i,
        {
            self.rows[i].remove(at);
            i = i + 1;
        }
        proof {
            let cells = grid(self.rows@);
            lemma_remove_keeps_distinct(old_order, at as int);
            assert(grid_fits(order, cells));
            let want = old(self)@.without_type(name@);
            assert(want.type_order == order);
            assert forall|a: Seq<char>, d: Seq<char>| order.contains(a) && order.contains(d) implies 
                self@.matrix[a][d] == want.matrix[a][d] by {
                lemma_index_of_contained(order, a);
                lemma_index_of_contained(order, d);
                let ia = order.index_of(a);
                let id = order.index_of(d);
                let ja = if ia < at { ia } else { ia + 1 };
                let jd = if id < at { id } else { id + 1 };
                lemma_index_of_unique(old_order, ja);
                lemma_index_of_unique(old_order, jd);
            }
            assert(self@.matrix =~~= want.matrix);
        }
        Ok(())
    }

    /// Records how `attacker` affects `defender`, over whatever was recorded
    /// before. The value is given by its label. A name that the chart does not
    /// have is refused with `NotFound`, and then a text that is no label with
    /// `InvalidLabel`; either way the chart stays as it was.
    pub fn add_effectiveness(
        &mut self,
        attacker: &String,
        defender: &String,
        effectiveness: String,
    ) -> (r: Result<(), ChartError>)
        requires
            old(self).wf(),
        ensures
            final(self).wf(),
            (r, final(self)@) == old(self)@.set_effectiveness(attacker@, defender@, effectiveness@),
            r is Err ==> *final(self) == *old(self),
    {
        let row = match self.position(attacker) {
            None => {
                return Err(ChartError::NotFound);
            },
            Some(row) => row,
        };
        let column = match self.position(defender) {
            None => {
                return Err(ChartError::NotFound);
            },
            Some(column) => column,
        };
        let value = match effectiveness_string_to_f32(&effectiveness) {
            Err(e) => {
                return Err(e);
            },
            Ok(value) => value,
        };
        let ghost order = texts(self.type_list@);
        let ghost old_cells = grid(self.rows@);
        assert(old_cells[row as int] == self.rows@[row as int]@);
        self.rows[row].set(column, value);
        proof {
            crate::effectiveness::lemma_value_round_trip(effectiveness@);
            let cells = grid(self.rows@);
            assert(cells =~= old_cells.update(row as int, old_cells[row as int].update(column as int, value)));
            assert(grid_fits(order, cells));
            let want = old(self)@.with_cell(attacker@, defender@, value);
            assert forall|a: Seq<char>| order.contains(a) implies self@.matrix[a]
                =~= want.matrix[a] by {
                assert forall|d: Seq<char>| order.contains(d) implies self@.matrix[a][d]
                    == want.matrix[a][d] by {
                    lemma_index_of_contained(order, a);
                    lemma_index_of_contained(order, d);
                }
            }
            assert(self@.matrix =~~= want.matrix);
        }
        Ok(())
    }
}

} // verus!
