//! Which tables do the query files of a folder read from?
//!
//! [`parsing`] finds the table names in the text of one query file, [`App`]
//! keeps the list of files with their tables and the row that is selected,
//! and [`conf`] holds the settings that say where the files are.

use vstd::prelude::*;
use vstd::string::StringExecFns;
use vstd::arithmetic::div_mod::lemma_small_mod;
use vstd::arithmetic::div_mod::lemma_mod_self_0;

pub mod conf;
pub mod parsing;

verus! {

/// A query file as it was read: its base name and its text.
pub struct QueryFile {
    pub file_name: String,
    pub text: String,
}

/// A query file and the tables that it refers to.
pub struct Item {
    pub file_name: String,
    pub tables: Vec<String>,
}

/// `lines`, with a line break between each two of them.
pub open spec fn join_lines(lines: Seq<Seq<char>>) -> Seq<char>
    decreases lines.len(),
{
    if lines.len() == 0 {
        Seq::empty()
    } else if lines.len() == 1 {
        lines[0]
    } else {
        join_lines(lines.drop_last()) + seq!['\n'] + lines.last()
    }
}

/// The number of line breaks in `text`.
pub open spec fn line_breaks(text: Seq<char>) -> nat
    decreases text.len(),
{
    if text.len() == 0 {
        0
    } else if text.last() == '\n' {
        line_breaks(text.drop_last()) + 1
    } else {
        line_breaks(text.drop_last())
    }
}

impl Item {
    /// The row of the file `file_name`, which refers to `tables`.
    pub fn new(file_name: String, tables: Vec<String>) -> (item: Item)
        ensures
            item.file_name == file_name,
            item.tables == tables,
    {
        Item { file_name: file_name, tables: tables }
    }

    /// The text of the row's second cell: the tables, one on each line.
    pub fn joined_tables(&self) -> (joined: String)
        ensures
            joined@ == join_lines(self.tables.deep_view()),
    {
        proof {
            reveal_strlit("\n");
        }
        assert("\n"@ =~= seq!['\n']);
        let mut joined = String::new();
        let mut i: usize = 0;
        assert(self.tables.deep_view().take(0) =~= Seq::empty());
        while i < self.tables.len()
            invariant
                i <= self.tables.len(),
                "\n"@ == seq!['\n'],
                joined@ == join_lines(self.tables.deep_view().take(i as int)),
            decreases self.tables.len() - i,
        {
            let ghost lines = self.tables.deep_view().take(i + 1);
            assert(lines.drop_last() =~= self.tables.deep_view().take(i as int));
            assert(lines.last() == self.tables[i as int]@);
            if i > 0 {
                joined.append("\n");
            } else {
                assert(lines[0] =~= Seq::<char>::empty() + lines[0]);
            }
            joined.append(self.tables[i].as_str());
            i += 1;
        }
        assert(self.tables.deep_view().take(i as int) =~= self.tables.deep_view());
        joined
    }

    /// The height of the row: the number of line breaks in its second cell.
    pub fn row_height(&self) -> (height: usize)
        ensures
            height == line_breaks(join_lines(self.tables.deep_view())),
    {
        let joined = self.joined_tables();
        let text = parsing::chars_of(joined.as_str());
        let mut height: usize = 0;
        let mut i: usize = 0;
        assert(text@.take(0) =~= Seq::empty());
        while i < text.len()
            invariant
                i <= text.len(),
                height <= i,
                height == line_breaks(text@.take(i as int)),
            decreases text.len() - i,
        {
            assert(text@.take(i + 1).drop_last() =~= text@.take(i as int));
            if text[i] == '\n' {
                height += 1;
            }
            i += 1;
        }
        assert(text@.take(i as int) =~= text@);
        height
    }
}

/// A key of the keyboard, as far as the list tells keys apart.
#[derive(Clone, Copy, Debug)]
pub enum Key {
    Char(char),
    Down,
    Up,
    Other,
}

/// The row that is selected after a step down: none in an empty list, the
/// first where none was selected, else the next one, and the first after
/// the last.
pub open spec fn next_selection(count: nat, selected: Option<usize>) -> Option<usize> {
    if count == 0 {
        selected
    } else {
        match selected {
            Some(i) => if i + 1 < count {
                Some((i + 1) as usize)
            } else {
                Some(0)
            },
            None => Some(0),
        }
    }
}

/// The row that is selected after a step up: none in an empty list, the
/// first where none was selected, else the one before, and the last before
/// the first.
pub open spec fn previous_selection(count: nat, selected: Option<usize>) -> Option<usize> {
    if count == 0 {
        selected
    } else {
        match selected {
            Some(i) => if i == 0 {
                Some((count - 1) as usize)
            } else {
                Some((i - 1) as usize)
            },
            None => Some(0),
        }
    }
}

/// A step down from a row of the list leads to the row whose index is one
/// more, modulo the number of rows.
pub proof fn lemma_next_selection_wraps(count: nat, i: usize)
    requires
        i < count,
    ensures
        next_selection(count, Some(i)) == Some(((i + 1) % (count as int)) as usize),
{
    if i + 1 < count {
        lemma_small_mod((i + 1) as nat, count);
    } else {
        lemma_mod_self_0(count as int);
    }
}

/// The list of query files, and the row that is selected in it.
pub struct App {
    items: Vec<Item>,
    selected: Option<usize>,
}

impl App {
    /// A selected row is a row of the list.
    #[verifier::type_invariant]
    spec fn selection_in_list(&self) -> bool {
        match self.selected {
            Some(i) => i < self.items.len(),
            None => true,
        }
    }

    /// The rows of the list.
    pub closed spec fn rows(&self) -> Seq<Item> {
        self.items@
    }

    /// The index of the selected row.
    pub closed spec fn selection(&self) -> Option<usize> {
        self.selected
    }

    /// The list of the given files, in their order, each with the tables
    /// that its text refers to. No row is selected.
    pub fn new(files: &Vec<QueryFile>) -> (app: App)
        ensures
            app.selection() is None,
            app.rows().len() == files.len(),
            forall|i: int|
                0 <= i < files.len() ==> {
                    &&& (#[trigger] app.rows()[i]).file_name@ == files[i].file_name@
                    &&& app.rows()[i].tables.deep_view() == parsing::tables_of(files[i].text@)
                },
    {
        let mut items: Vec<Item> = Vec::new();
        let mut i: usize = 0;
        while i < files.len()
            invariant
                i <= files.len(),
                items.len() == i,
                forall|k: int|
                    0 <= k < i ==> {
                        &&& (#[trigger] items[k]).file_name@ == files[k].file_name@
                        &&& items[k].tables.deep_view() == parsing::tables_of(files[k].text@)
                    },
            decreases files.len() - i,
        {
            let tables = parsing::parse_tables(files[i].text.as_str());
            let item = Item::new(files[i].file_name.clone(), tables);
            items.push(item);
            i += 1;
        }
        App { items: items, selected: None }
    }

    /// The rows of the list.
    pub fn items(&self) -> (items: &Vec<Item>)
        ensures
            items@ == self.rows(),
    {
        &self.items
    }

    /// The index of the selected row, which is a row of the list.
    pub fn selected(&self) -> (selected: Option<usize>)
        ensures
            selected == self.selection(),
            selected matches Some(i) ==> i < self.rows().len(),
    {
        proof {
            use_type_invariant(self);
        }
        self.selected
    }

    /// Moves the selection one row down: to the first row where none was
    /// selected or the last one was. An empty list stays without selection.
    pub fn next(&mut self)
        ensures
            final(self).rows() == old(self).rows(),
            final(self).selection() == next_selection(
                old(self).rows().len(),
                old(self).selection(),
            ),
            old(self).rows().len() == 0 ==> final(self).selection() is None,
            old(self).rows().len() > 0 ==> final(self).selection() is Some,
            old(self).rows().len() > 0 && old(self).selection() is None ==> final(self).selection()
                == Some(0usize),
            old(self).rows().len() > 0 && old(self).selection() == Some(
                (old(self).rows().len() - 1) as usize,
            ) ==> final(self).selection() == Some(0usize),
            final(self).selection() matches Some(i) ==> i < final(self).rows().len(),
    {
        proof {
            use_type_invariant(&*self);
        }
        let count = self.items.len();
        if count == 0 {
            return ;
        }
        let i: usize = match self.selected {
            Some(i) => {
                if i >= count - 1 {
                    0
                } else {
                    i + 1
                }
            },
            None => 0,
        };
        self.selected = Some(i);
    }

    /// Moves the selection one row up: to the first row where none was
    /// selected, and from the first row to the last. An empty list stays
    /// without selection.
    pub fn previous(&mut self)
        ensures
            final(self).rows() == old(self).rows(),
            final(self).selection() == previous_selection(
                old(self).rows().len(),
                old(self).selection(),
            ),
            old(self).rows().len() == 0 ==> final(self).selection() is None,
            old(self).rows().len() > 0 ==> final(self).selection() is Some,
            old(self).rows().len() > 0 && old(self).selection() is None ==> final(self).selection()
                == Some(0usize),
            old(self).rows().len() > 0 && old(self).selection() == Some(0usize)
                ==> final(self).selection() == Some((old(self).rows().len() - 1) as usize),
            final(self).selection() matches Some(i) ==> i < final(self).rows().len(),
    {
        proof {
            use_type_invariant(&*self);
        }
        let count = self.items.len();
        if count == 0 {
            return ;
        }
        let i: usize = match self.selected {
            Some(i) => {
                if i == 0 {
                    count - 1
                } else {
                    i - 1
                }
            },
            None => 0,
        };
        self.selected = Some(i);
    }

    /// Takes a key: `q` ends the session, the arrows move the selection, and
    /// any other key does nothing. Tells whether the session has ended.
    pub fn on_key(&mut self, key: Key) -> (quit: bool)
        ensures
            final(self).rows() == old(self).rows(),
            quit == (key == Key::Char('q')),
            final(self).selection() == match key {
                Key::Down => next_selection(old(self).rows().len(), old(self).selection()),
                Key::Up => previous_selection(old(self).rows().len(), old(self).selection()),
                _ => old(self).selection(),
            },
    {
        match key {
            Key::Char(c) => c == 'q',
            Key::Down => {
                self.next();
                false
            },
            Key::Up => {
                self.previous();
                false
            },
            Key::Other => false,
        }
    }
}

} // verus!
