use vstd::prelude::*;

use crate::columns::{find_h3cell_columns, find_lat_lon_columns};
use crate::dataset::{copy_strings, names_view, with_index_view, Dataset, TableView};
use crate::filter::{
    columns_known, filter_dataframe, filtered, first_unknown, FilterCondition, FilterError,
    FilterType,
};
use crate::geometry::{extract_h3cells, h3_values, lat_lon_positions, positions_of};
use crate::rows::keep;
use crate::sort::{sort_dataframe, sorted_table, SortCondition, SortError};

verus! {

/// The two views of the window.
#[derive(Debug, Clone, Copy, PartialEq, Eq, Structural)]
pub enum ViewTab {
    Table,
    MapView,
}

/// The state of the viewer: the loaded data, the filters and the sort over
/// it, and what the map shows.
pub struct Parqr {
    /// The dataset on display: the loaded one, filtered and sorted.
    pub dataframe: Option<Dataset>,
    /// The dataset as loaded, which every filter starts from.
    pub original_dataframe: Option<Dataset>,
    pub column_names: Vec<String>,
    pub files_to_load: Vec<String>,
    pub error_message: Option<String>,
    pub files_loaded: bool,
    pub selected_tab: ViewTab,
    pub filter_dialog_open: bool,
    pub filter_conditions: Vec<FilterCondition>,
    pub sort_condition: Option<SortCondition>,
    /// Map positions as (latitude, longitude) float bit patterns.
    pub positions: Vec<(u64, u64)>,
    pub h3cells: Vec<String>,
}

/// The column added to every loaded dataset to number its rows.
pub open spec fn row_index_name() -> Seq<char> {
    "Row Index"@
}

pub open spec fn load_error_text(msg: Seq<char>) -> Seq<char> {
    "Error processing Parquet files: "@ + msg
}

pub open spec fn duplicate_index_text() -> Seq<char> {
    "Error processing Parquet files: "@ + "a column is already named Row Index"@
}

pub open spec fn no_files_text() -> Seq<char> {
    "No files selected. Please select at least one Parquet file."@
}

pub open spec fn sort_error_text(name: Seq<char>) -> Seq<char> {
    "Sort error: "@ + "column not found: "@ + name
}

pub open spec fn filter_error_text(name: Seq<char>) -> Seq<char> {
    "Filter error: "@ + "column not found: "@ + name
}

/// What the map shows for a displayed dataset.
pub open spec fn positions_for(d: Option<Dataset>) -> Seq<(u64, u64)> {
    match d {
        Some(x) => positions_of(x@),
        None => Seq::empty(),
    }
}

/// `after` is `before` once the sort condition has been applied to the displayed dataset.
pub open spec fn sort_effect(before: Parqr, after: Parqr) -> bool {
    match (before.dataframe, before.sort_condition) {
        (Some(d), Some(c)) => if d@.has_column(c.column_name@) {
            &&& after.dataframe is Some
            &&& after.dataframe->Some_0@ == sorted_table(
                d@,
                d@.column_position(c.column_name@),
                c.ascending,
            )
            &&& (Parqr { dataframe: before.dataframe, ..after }) == before
        } else {
            &&& after.error_message is Some
            &&& after.error_message->Some_0@ == sort_error_text(c.column_name@)
            &&& (Parqr { error_message: before.error_message, ..after }) == before
        },
        _ => after == before,
    }
}

/// The H3 cells the map shows for a displayed dataset.
pub open spec fn h3cells_for(d: Option<Dataset>) -> Seq<Seq<char>> {
    match d {
        Some(x) => match h3_values(x@) {
            Some(v) => v,
            None => Seq::empty(),
        },
        None => Seq::empty(),
    }
}

/// The loaded table `o` filtered by `conds`, or `o` itself when there are no
/// conditions or one names a missing column.
pub open spec fn filter_base(o: TableView, conds: Seq<FilterCondition>) -> TableView {
    if conds.len() > 0 && columns_known(o, conds) {
        filtered(o, conds)
    } else {
        o
    }
}

/// `after` is `before` once the filter conditions have been applied afresh to
/// the loaded dataset, and the map redrawn.
pub open spec fn filter_effect(before: Parqr, after: Parqr) -> bool {
    let conds = before.filter_conditions@;
    &&& after.positions@ == positions_for(after.dataframe)
    &&& names_view(after.h3cells@) == h3cells_for(after.dataframe)
    &&& (Parqr {
        dataframe: before.dataframe,
        error_message: before.error_message,
        positions: before.positions,
        h3cells: before.h3cells,
        ..after
    }) == before
    &&& match before.original_dataframe {
        Some(o) => {
            let base = filter_base(o@, conds);
            &&& after.dataframe is Some
            &&& after.dataframe->Some_0@ == base
            &&& if conds.len() == 0 || columns_known(o@, conds) {
                after.error_message is None
            } else {
                &&& after.error_message is Some
                &&& exists|k: int|
                    first_unknown(o@, conds, k) && after.error_message->Some_0@
                        == filter_error_text(conds[k].column_name@)
            }
        },
        None => after.dataframe == before.dataframe && after.error_message == before.error_message,
    }
}

/// A filter condition as plain values.
pub open spec fn cond_view(c: FilterCondition) -> (FilterType, Seq<char>, Seq<char>) {
    (c.filter_type, c.column_name@, c.filter_value@)
}

/// The conditions left once those at the positions in `removed` are taken out.
pub open spec fn without(conds: Seq<FilterCondition>, removed: Seq<usize>) -> Seq<
    (FilterType, Seq<char>, Seq<char>),
> {
    keep(conds.len(), |i: int| !removed.contains(i as usize)).map_values(
        |i: int| cond_view(conds[i]),
    )
}

/// The column a new condition starts on: the first, or none.
pub open spec fn first_column(names: Seq<String>) -> Seq<char> {
    if names.len() > 0 {
        names[0]@
    } else {
        Seq::empty()
    }
}

/// The conditions once a dialog's edits are taken: removals, then an added
/// `Equals` condition, then a `Contains` one if none is left.
pub open spec fn edited_conditions(
    conds: Seq<FilterCondition>,
    removed: Seq<usize>,
    add: bool,
    names: Seq<String>,
) -> Seq<(FilterType, Seq<char>, Seq<char>)> {
    let kept = without(conds, removed);
    let added = if add {
        kept.push((FilterType::Equals, first_column(names), Seq::empty()))
    } else {
        kept
    };
    if added.len() == 0 {
        added.push((FilterType::Contains, first_column(names), Seq::empty()))
    } else {
        added
    }
}

fn text_after(prefix: &str, rest: &str) -> (r: String)
    ensures
        r@ == prefix@ + rest@,
{
    String::from_str(prefix).concat(rest)
}

fn first_column_name(names: &Vec<String>) -> (r: String)
    ensures
        r@ == first_column(names@),
{
    if names.len() > 0 {
        names[0].clone()
    } else {
        String::new()
    }
}

impl Parqr {
    pub open spec fn wf(&self) -> bool {
        &&& self.dataframe is Some ==> self.dataframe->Some_0@.wf()
        &&& self.original_dataframe is Some ==> self.original_dataframe->Some_0@.wf()
    }

    /// A viewer with nothing loaded, that will load `files_to_load`.
    pub fn new(files_to_load: Vec<String>) -> (r: Parqr)
        ensures
            r.wf(),
            r.dataframe is None,
            r.original_dataframe is None,
            r.column_names@.len() == 0,
            r.files_to_load == files_to_load,
            r.error_message is None,
            !r.files_loaded,
            r.selected_tab == ViewTab::Table,
            !r.filter_dialog_open,
            r.filter_conditions@.len() == 0,
            r.sort_condition is None,
            r.positions@.len() == 0,
            r.h3cells@.len() == 0,
    {
        Parqr {
            dataframe: None,
            original_dataframe: None,
            column_names: Vec::new(),
            files_to_load,
            error_message: None,
            files_loaded: false,
            selected_tab: ViewTab::Table,
            filter_dialog_open: false,
            filter_conditions: Vec::new(),
            sort_condition: None,
            positions: Vec::new(),
            h3cells: Vec::new(),
        }
    }

    /// Takes in what loading the files gave: a dataset, which gets a row
    /// index column and becomes both the loaded and the displayed dataset, or
    /// the loader's error message.
    pub fn load_parquet_data(&mut self, loaded: Result<Dataset, String>)
        requires
            old(self).wf(),
            loaded is Ok ==> loaded->Ok_0@.wf() && loaded->Ok_0@.height() <= i64::MAX,
        ensures
            final(self).wf(),
            final(self).files_to_load == old(self).files_to_load,
            final(self).files_loaded == old(self).files_loaded,
            final(self).selected_tab == old(self).selected_tab,
            final(self).filter_dialog_open == old(self).filter_dialog_open,
            final(self).sort_condition == old(self).sort_condition,
            match loaded {
                Ok(df) => if !df@.has_column(row_index_name()) {
                    let d = with_index_view(df@, row_index_name());
                    &&& final(self).dataframe is Some
                    &&& final(self).dataframe->Some_0@ == d
                    &&& final(self).original_dataframe is Some
                    &&& final(self).original_dataframe->Some_0@ == d
                    &&& names_view(final(self).column_names@) == d.names
                    &&& final(self).error_message is None
                    &&& final(self).filter_conditions@.len() == 0
                    &&& final(self).positions@ == positions_of(d)
                    &&& names_view(final(self).h3cells@) == match h3_values(d) {
                        Some(v) => v,
                        None => Seq::empty(),
                    }
                } else {
                    &&& final(self).dataframe is None
                    &&& final(self).original_dataframe is None
                    &&& final(self).column_names@.len() == 0
                    &&& final(self).error_message is Some
                    &&& final(self).error_message->Some_0@ == duplicate_index_text()
                    &&& final(self).filter_conditions == old(self).filter_conditions
                    &&& final(self).positions == old(self).positions
                    &&& final(self).h3cells == old(self).h3cells
                },
                Err(msg) => {
                    &&& final(self).dataframe is None
                    &&& final(self).original_dataframe is None
                    &&& final(self).column_names@.len() == 0
                    &&& final(self).error_message is Some
                    &&& final(self).error_message->Some_0@ == load_error_text(msg@)
                    &&& final(self).filter_conditions == old(self).filter_conditions
                    &&& final(self).positions == old(self).positions
                    &&& final(self).h3cells == old(self).h3cells
                },
            },
    {
        self.dataframe = None;
        self.original_dataframe = None;
        self.column_names = Vec::new();
        match loaded {
            Ok(df) => match df.with_row_index("Row Index") {
                Ok(d) => {
                    self.column_names = d.column_names();
                    self.original_dataframe = Some(d.duplicate());
                    self.dataframe = Some(d);
                    self.error_message = None;
                    self.filter_conditions = Vec::new();
                    self.render_map_data();
                },
                Err(_) => {
                    self.error_message = Some(
                        text_after(
                            "Error processing Parquet files: ",
                            "a column is already named Row Index",
                        ),
                    );
                },
            },
            Err(msg) => {
                self.error_message = Some(
                    text_after("Error processing Parquet files: ", msg.as_str()),
                );
            },
        }
    }

    /// The files to load now, if they have not been loaded yet; they are then
    /// marked as loaded.
    pub fn process_pending_files(&mut self) -> (r: Option<Vec<String>>)
        ensures
            if !old(self).files_loaded && old(self).files_to_load@.len() > 0 {
                &&& r is Some
                &&& r->Some_0@ == old(self).files_to_load@
                &&& *final(self) == (Parqr { files_loaded: true, ..*old(self) })
            } else {
                r is None && *final(self) == *old(self)
            },
    {
        if !self.files_loaded && self.files_to_load.len() > 0 {
            self.files_loaded = true;
            Some(copy_strings(&self.files_to_load))
        } else {
            None
        }
    }

    /// Takes in what the file dialog gave: nothing when it was cancelled,
    /// else the chosen files, which must not be none.
    pub fn handle_browse_button_click(&mut self, picked: Option<Vec<String>>)
        ensures
            match picked {
                None => *final(self) == *old(self),
                Some(paths) => if paths@.len() == 0 {
                    &&& final(self).error_message is Some
                    &&& final(self).error_message->Some_0@ == no_files_text()
                    &&& (Parqr { error_message: old(self).error_message, ..*final(self) })
                        == *old(self)
                } else {
                    *final(self) == (Parqr {
                        files_to_load: paths,
                        files_loaded: false,
                        error_message: None,
                        ..*old(self)
                    })
                },
            },
    {
        if let Some(paths) = picked {
            if paths.len() == 0 {
                self.error_message = Some(
                    String::from_str("No files selected. Please select at least one Parquet file."),
                );
            } else {
                self.files_to_load = paths;
                self.files_loaded = false;
                self.error_message = None;
            }
        }
    }

    /// Sorts the displayed dataset on the sort condition, if both are there.
    pub fn apply_sort(&mut self)
        requires
            old(self).wf(),
        ensures
            final(self).wf(),
            sort_effect(*old(self), *final(self)),
    {
        let mut outcome: Option<Result<Dataset, SortError>> = None;
        if let Some(df) = &self.dataframe {
            if self.sort_condition.is_some() {
                outcome = Some(sort_dataframe(df, &self.sort_condition));
            }
        }
        match outcome {
            None => {},
            Some(Ok(sorted)) => {
                self.dataframe = Some(sorted);
            },
            Some(Err(SortError::ColumnNotFound(name))) => {
                self.error_message = Some(
                    text_after("Sort error: ", text_after("column not found: ", name.as_str()).as_str()),
                );
                proof {
                    assert(self.error_message->Some_0@ =~= sort_error_text(name@));
                }
            },
        }
    }

    /// A click on a column's header: sorts ascending on a new column, or
    /// flips the direction on the current one, then applies the sort.
    pub fn toggle_sort(&mut self, col_name: &String)
        requires
            old(self).wf(),
        ensures
            final(self).wf(),
            final(self).sort_condition is Some,
            final(self).sort_condition->Some_0.column_name@ == col_name@,
            final(self).sort_condition->Some_0.ascending == match old(self).sort_condition {
                Some(c) => c.column_name@ != col_name@ || !c.ascending,
                None => true,
            },
            sort_effect(
                (Parqr { sort_condition: final(self).sort_condition, ..*old(self) }),
                *final(self),
            ),
    {
        let next = match &self.sort_condition {
            Some(c) => if c.column_name == *col_name {
                SortCondition { column_name: c.column_name.clone(), ascending: !c.ascending }
            } else {
                SortCondition { column_name: col_name.clone(), ascending: true }
            },
            None => SortCondition { column_name: col_name.clone(), ascending: true },
        };
        self.sort_condition = Some(next);
        self.apply_sort();
    }

    /// The mark shown after a column's name in the header: the direction of
    /// the sort when it is on that column.
    pub fn sort_indicator(&self, col_name: &String) -> (r: String)
        ensures
            r@ == match self.sort_condition {
                Some(c) => if c.column_name@ == col_name@ {
                    if c.ascending {
                        "\u{2B06}"@
                    } else {
                        "\u{2B07}"@
                    }
                } else {
                    ""@
                },
                None => ""@,
            },
    {
        match &self.sort_condition {
            Some(c) => if c.column_name == *col_name {
                if c.ascending {
                    String::from_str("\u{2B06}")
                } else {
                    String::from_str("\u{2B07}")
                }
            } else {
                String::from_str("")
            },
            None => String::from_str(""),
        }
    }

    /// Filters the loaded dataset afresh with the current conditions; on an
    /// error the loaded dataset is shown unfiltered.  Then redraws the map.
    pub fn apply_filter(&mut self)
        requires
            old(self).wf(),
        ensures
            final(self).wf(),
            filter_effect(*old(self), *final(self)),
    {
        if let Some(original_df) = &self.original_dataframe {
            if self.filter_conditions.len() == 0 {
                let d = original_df.duplicate();
                self.dataframe = Some(d);
                self.error_message = None;
            } else {
                match filter_dataframe(original_df, self.filter_conditions.as_slice()) {
                    Ok(filtered_df) => {
                        self.dataframe = Some(filtered_df);
                        self.error_message = None;
                    },
                    Err(FilterError::ColumnNotFound(name)) => {
                        let d = original_df.duplicate();
                        self.error_message = Some(
                            text_after(
                                "Filter error: ",
                                text_after("column not found: ", name.as_str()).as_str(),
                            ),
                        );
                        self.dataframe = Some(d);
                        proof {
                            assert(self.error_message->Some_0@ =~= filter_error_text(name@));
                        }
                    },
                }
            }
        }
        self.render_map_data();
    }

    /// Takes the edits of the filter dialog: removes the conditions at the
    /// given positions, adds an `Equals` condition when asked, adds a
    /// `Contains` one when none is left, and applies the filter when a
    /// condition was edited, removed or added.
    pub fn end_filter_dialog(&mut self, edited: bool, add: bool, remove_indices: &Vec<usize>)
        requires
            old(self).wf(),
        ensures
            final(self).wf(),
            final(self).filter_conditions@.map_values(|c: FilterCondition| cond_view(c))
                == edited_conditions(
                old(self).filter_conditions@,
                remove_indices@,
                add,
                old(self).column_names@,
            ),
            ({
                let mid = Parqr { filter_conditions: final(self).filter_conditions, ..*old(self) };
                let kept = without(old(self).filter_conditions@, remove_indices@);
                if edited || add || kept.len() != old(self).filter_conditions@.len() || kept.len()
                    == 0 {
                    filter_effect(mid, *final(self))
                } else {
                    *final(self) == mid
                }
            }),
    {
        let ghost conds = self.filter_conditions@;
        let ghost pick = |i: int| !remove_indices@.contains(i as usize);
        let mut kept: Vec<FilterCondition> = Vec::new();
        let ghost mut chosen: Seq<int> = Seq::empty();
        let mut i: usize = 0;
        while i < self.filter_conditions.len()
            invariant
                conds == self.filter_conditions@,
                i <= conds.len(),
                pick == (|x: int| !remove_indices@.contains(x as usize)),
                chosen == keep(i as nat, pick),
                forall|k: int| 0 <= k < chosen.len() ==> 0 <= #[trigger] chosen[k] < i,
                kept@.len() == chosen.len(),
                forall|k: int| 0 <= k < chosen.len() ==> #[trigger] kept@[k] == conds[chosen[k]],
            decreases conds.len() - i,
        {
            if !usize_in(remove_indices, i) {
                kept.push(self.filter_conditions[i].copy());
                proof {
                    chosen = chosen.push(i as int);
                }
            }
            i = i + 1;
        }
        assert(kept@.map_values(|c: FilterCondition| cond_view(c)) =~= without(
            conds,
            remove_indices@,
        ));
        let mut apply = edited || kept.len() != self.filter_conditions.len();
        if add {
            let ghost before = kept@;
            kept.push(
                FilterCondition {
                    column_name: first_column_name(&self.column_names),
                    filter_type: FilterType::Equals,
                    filter_value: String::new(),
                },
            );
            apply = true;
            assert(kept@.map_values(|c: FilterCondition| cond_view(c)) =~= before.map_values(
                |c: FilterCondition| cond_view(c),
            ).push((FilterType::Equals, first_column(self.column_names@), Seq::empty())));
        }
        if kept.len() == 0 {
            let ghost before = kept@;
            kept.push(
                FilterCondition {
                    column_name: first_column_name(&self.column_names),
                    filter_type: FilterType::Contains,
                    filter_value: String::new(),
                },
            );
            apply = true;
            assert(kept@.map_values(|c: FilterCondition| cond_view(c)) =~= before.map_values(
                |c: FilterCondition| cond_view(c),
            ).push((FilterType::Contains, first_column(self.column_names@), Seq::empty())));
        }
        self.filter_conditions = kept;
        if apply {
            self.apply_filter();
        }
    }

    /// Recomputes the map positions from the displayed dataset.
    pub fn construct_lat_lon_positions(&mut self)
        requires
            old(self).wf(),
        ensures
            final(self).positions@ == positions_for(old(self).dataframe),
            (Parqr { positions: old(self).positions, ..*final(self) }) == *old(self),
    {
        match &self.dataframe {
            Some(df) => {
                self.positions = lat_lon_positions(df);
            },
            None => {
                self.positions = Vec::new();
            },
        }
    }

    /// Recomputes the H3 cells from the displayed dataset.
    pub fn construct_h3_cells(&mut self)
        requires
            old(self).wf(),
        ensures
            names_view(final(self).h3cells@) == h3cells_for(old(self).dataframe),
            (Parqr { h3cells: old(self).h3cells, ..*final(self) }) == *old(self),
    {
        let mut cells: Vec<String> = Vec::new();
        if let Some(df) = &self.dataframe {
            if let Some(v) = extract_h3cells(df) {
                cells = v;
            }
        }
        assert(names_view(Seq::<String>::empty()) =~= Seq::<Seq<char>>::empty());
        self.h3cells = cells;
    }

    /// Redraws what the map shows of the displayed dataset: its positions and
    /// its H3 cells.
    pub fn render_map_data(&mut self)
        requires
            old(self).wf(),
        ensures
            final(self).positions@ == positions_for(old(self).dataframe),
            names_view(final(self).h3cells@) == h3cells_for(old(self).dataframe),
            (Parqr { positions: old(self).positions, h3cells: old(self).h3cells, ..*final(self) })
                == *old(self),
    {
        self.construct_lat_lon_positions();
        self.construct_h3_cells();
    }

    /// The latitude and longitude columns among the loaded column names.
    pub fn find_lat_lon_columns(&self) -> (r: Option<(String, String)>)
        ensures
            match r {
                Some((a, b)) => crate::columns::lat_lon_pair(names_view(self.column_names@))
                    == Some((a@, b@)),
                None => crate::columns::lat_lon_pair(names_view(self.column_names@)) is None,
            },
    {
        find_lat_lon_columns(&self.column_names)
    }

    /// The H3 cell column among the loaded column names.
    pub fn find_h3cell_columns(&self) -> (r: Option<String>)
        ensures
            match r {
                Some(s) => crate::columns::role_column(
                    names_view(self.column_names@),
                    crate::columns::h3_aliases(),
                ) == Some(s@),
                None => crate::columns::role_column(
                    names_view(self.column_names@),
                    crate::columns::h3_aliases(),
                ) is None,
            },
    {
        find_h3cell_columns(&self.column_names)
    }
}

/// Whether `x` is one of `v`.
fn usize_in(v: &Vec<usize>, x: usize) -> (r: bool)
    ensures
        r == v@.contains(x),
{
    let mut i: usize = 0;
    while i < v.len()
        invariant
            i <= v@.len(),
            forall|j: int| 0 <= j < i ==> v@[j] != x,
        decreases v@.len() - i,
    {
        if v[i] == x {
            return true;
        }
        i = i + 1;
    }
    false
}

} // verus!
