use vstd::prelude::*;

verus! {

/// One line of a table of results.
pub struct TableRow {
    pub title: String,
    /// The number of mosaics that the line reports, if it reports one.
    pub count: Option<usize>,
    pub notes: String,
}

/// The lines of a table of results, in the order in which they came.
#[derive(Default)]
pub struct Table {
    rows: Vec<TableRow>,
}

/// The title of a line that only separates the lines before it from those
/// after it.
pub open spec fn spec_rule_title() -> Seq<char> {
    seq!['-', '-', '-', '-']
}

impl Table {
    /// The lines of the table.
    pub closed spec fn view(&self) -> Seq<TableRow> {
        self.rows@
    }

    /// The table without lines.
    pub fn new() -> (table: Self)
        ensures
            table@ == Seq::<TableRow>::empty(),
    {
        Table { rows: Vec::new() }
    }

    /// The lines of the table.
    pub fn rows(&self) -> (rows: &Vec<TableRow>)
        ensures
            rows@ == self@,
    {
        &self.rows
    }

    /// Adds a line that reports `count` mosaics under `title`.
    pub fn push(&mut self, title: &str, count: usize, notes: String)
        ensures
            final(self)@.len() == old(self)@.len() + 1,
            final(self)@.drop_last() == old(self)@,
            final(self)@.last().title@ == title@,
            final(self)@.last().count == Some(count),
            final(self)@.last().notes == notes,
    {
        let ghost before = self.rows@;
        self.rows.push(TableRow { title: title.to_owned(), count: Some(count), notes });
        assert(self.rows@.drop_last() =~= before);
    }

    /// Adds a line that separates the lines before it from those after it.
    pub fn push_hr(&mut self)
        ensures
            final(self)@.len() == old(self)@.len() + 1,
            final(self)@.drop_last() == old(self)@,
            final(self)@.last().title@ == spec_rule_title(),
            final(self)@.last().count is None,
            final(self)@.last().notes@ == Seq::<char>::empty(),
    {
        let ghost before = self.rows@;
        proof {
            reveal_strlit("----");
        }
        let title = "----".to_owned();
        assert(title@ =~= spec_rule_title());
        self.rows.push(TableRow { title, count: None, notes: String::new() });
        assert(self.rows@.drop_last() =~= before);
    }
}

} // verus!
