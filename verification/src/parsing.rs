//! Table names in the text of a query file.

use vstd::prelude::*;

verus! {

/// The pattern of a table reference: the keyword, any white space, and a
/// group that takes the letters and underscores that follow.
pub const TABLE_PATTERN: &'static str = r"from\s*(?P<table>[a-zA-Z_]*)";

/// The keyword that a table name follows.
pub open spec fn keyword() -> Seq<char> {
    seq!['f', 'r', 'o', 'm']
}

/// White space, as Unicode defines it: the characters that may stand between
/// the keyword and a name.
pub open spec fn is_blank(c: char) -> bool {
    let n = c as u32;
    ||| 0x09 <= n <= 0x0d
    ||| n == 0x20
    ||| n == 0x85
    ||| n == 0xa0
    ||| n == 0x1680
    ||| 0x2000 <= n <= 0x200a
    ||| 0x2028 <= n <= 0x2029
    ||| n == 0x202f
    ||| n == 0x205f
    ||| n == 0x3000
}

/// An ASCII letter or an underscore: the characters that a name is made of.
pub open spec fn is_name_char(c: char) -> bool {
    let n = c as u32;
    ||| 0x61 <= n <= 0x7a
    ||| 0x41 <= n <= 0x5a
    ||| n == 0x5f
}

/// A name: one character or more, each a letter or an underscore.
pub open spec fn is_name(name: Seq<char>) -> bool {
    &&& name.len() > 0
    &&& forall|i: int| 0 <= i < name.len() ==> is_name_char(#[trigger] name[i])
}

/// `matched` reads: the keyword, any blanks, then `name`, which is a name.
pub open spec fn is_clause(matched: Seq<char>, name: Seq<char>) -> bool {
    let gap_end = matched.len() - name.len();
    &&& is_name(name)
    &&& 4 <= gap_end
    &&& matched.subrange(0, 4) == keyword()
    &&& forall|i: int| 4 <= i < gap_end ==> is_blank(#[trigger] matched[i])
    &&& matched.subrange(gap_end, matched.len() as int) == name
}

/// One match of a pattern in a text, as the engine reports it.
pub struct Capture {
    /// The part of the text that the whole pattern matched.
    pub matched: String,
    /// The part that the pattern's first group caught, if the group took part.
    pub group: Option<String>,
}

impl DeepView for Capture {
    type V = (Seq<char>, Option<Seq<char>>);

    open spec fn deep_view(&self) -> (Seq<char>, Option<Seq<char>>) {
        (self.matched@, self.group.deep_view())
    }
}

/// The table name that a match stands for: what its group caught, where the
/// match reads as a clause of that name.
pub open spec fn clause_name(hit: (Seq<char>, Option<Seq<char>>)) -> Option<Seq<char>> {
    match hit.1 {
        Some(name) => if is_clause(hit.0, name) {
            Some(name)
        } else {
            None
        },
        None => None,
    }
}

/// The table names of a run of matches, one for each match that stands for
/// one, in the order of the matches.
pub open spec fn candidates(hits: Seq<(Seq<char>, Option<Seq<char>>)>) -> Seq<Seq<char>>
    decreases hits.len(),
{
    if hits.len() == 0 {
        Seq::empty()
    } else {
        let before = candidates(hits.drop_last());
        match clause_name(hits.last()) {
            Some(name) => before.push(name),
            None => before,
        }
    }
}

/// The names in `names`, each once, in the order in which they first occur.
pub open spec fn first_occurrences<A>(names: Seq<A>) -> Seq<A>
    decreases names.len(),
{
    if names.len() == 0 {
        Seq::empty()
    } else {
        let before = first_occurrences(names.drop_last());
        if before.contains(names.last()) {
            before
        } else {
            before.push(names.last())
        }
    }
}

/// The tables that a run of matches refers to: each name once, in the order
/// of first reference.
pub open spec fn table_names(hits: Seq<(Seq<char>, Option<Seq<char>>)>) -> Seq<Seq<char>> {
    first_occurrences(candidates(hits))
}

/// `part` stands in `text` at position `at`.
pub open spec fn occurs_at(text: Seq<char>, at: int, part: Seq<char>) -> bool {
    &&& 0 <= at
    &&& at + part.len() <= text.len()
    &&& text.subrange(at, at + part.len()) == part
}

/// `part` stands somewhere in `text`.
pub open spec fn occurs_in(text: Seq<char>, part: Seq<char>) -> bool {
    exists|at: int| occurs_at(text, at, part)
}

/// In `text`, from position `at` on, stand the keyword, `gap` blanks, and
/// `name`.
pub open spec fn clause_at(text: Seq<char>, at: int, gap: int, name: Seq<char>) -> bool {
    &&& 0 <= gap
    &&& occurs_at(text, at, keyword())
    &&& forall|i: int| at + 4 <= i < at + 4 + gap ==> is_blank(#[trigger] text[i])
    &&& occurs_at(text, at + 4 + gap, name)
}

/// Somewhere in `text` stands the keyword with `name` behind it, nothing but
/// blanks between the two.
pub open spec fn follows_keyword(text: Seq<char>, name: Seq<char>) -> bool {
    exists|at: int, gap: int| clause_at(text, at, gap, name)
}

/// The lower-case form of `text`, as `str::to_lowercase` gives it.
pub uninterp spec fn lowercase(text: Seq<char>) -> Seq<char>;

/// The matches of `pattern` in `haystack`, in the order in which
/// `regex::Regex::captures_iter` yields them, each as the text of the whole
/// match and the text of group 1; `None` where `regex::Regex::new` refuses
/// the pattern.
pub uninterp spec fn pattern_captures(pattern: Seq<char>, haystack: Seq<char>) -> Option<
    Seq<(Seq<char>, Option<Seq<char>>)>,
>;

/// The tables that the text of a query file refers to: those of the matches
/// of `TABLE_PATTERN` in its lower-case form.
pub open spec fn tables_of(text: Seq<char>) -> Seq<Seq<char>> {
    match pattern_captures(TABLE_PATTERN@, lowercase(text)) {
        Some(hits) => table_names(hits),
        None => Seq::empty(),
    }
}

/// Calls `str::to_lowercase`. Trusted: the result is a function of the text
/// alone, which `lowercase` names. Nothing more is claimed of it.
#[verifier::external_body]
fn lowercased(text: &str) -> (lower: String)
    ensures
        lower@ == lowercase(text@),
{
    text.to_lowercase()
}

/// Compiles `pattern` with `regex::Regex::new` and walks `haystack` with
/// `Regex::captures_iter`. Of each match it keeps the text of the whole
/// match (group 0, by index) and the text of group 1 (`Captures::get`,
/// `Match::as_str`). A pattern that does not compile gives `None`.
///
/// Trusted: the outcome is a function of pattern and haystack alone, which
/// `pattern_captures` names; and the text of every whole match is a piece of
/// the haystack, since `Match::as_str` slices it out of there. Nothing is
/// claimed of what a pattern means, nor that any pattern compiles.
#[verifier::external_body]
fn find_captures(pattern: &str, haystack: &str) -> (found: Option<Vec<Capture>>)
    ensures
        found.deep_view() == pattern_captures(pattern@, haystack@),
        found matches Some(captures) ==> forall|k: int|
            0 <= k < captures.len() ==> occurs_in(haystack@, #[trigger] captures[k].matched@),
{
    let re = regex::Regex::new(pattern).ok()?;
    Some(
        re.captures_iter(haystack).map(
            |c| Capture { matched: c[0].to_string(), group: c.get(1).map(|m| m.as_str().to_string()) },
        ).collect(),
    )
}

/// The tables that the text of a query file refers to, in lower case, each
/// once, in the order of first reference.
///
/// The text is put in lower case and searched for `TABLE_PATTERN`; of the
/// matches, those that read as the keyword, blanks and a name give their
/// name. So no table is listed twice, and each stands behind the keyword in
/// the lower-case text. Where the engine refuses the pattern, no table is
/// found.
pub fn parse_tables(file: &str) -> (tables: Vec<String>)
    ensures
        tables.deep_view() == tables_of(file@),
        tables.deep_view().no_duplicates(),
        first_occurrences(tables.deep_view()) == tables.deep_view(),
        forall|i: int|
            0 <= i < tables.len() ==> is_name(#[trigger] tables[i]@) && follows_keyword(
                lowercase(file@),
                tables[i]@,
            ),
{
    let lower = lowercased(file);
    match find_captures(TABLE_PATTERN, lower.as_str()) {
        Some(captures) => {
            let tables = tables_from_captures(&captures);
            proof {
                let hits = captures.deep_view();
                lemma_first_occurrences_distinct(candidates(hits));
                lemma_first_occurrences_of_distinct(tables.deep_view());
                assert forall|k: int| 0 <= k < hits.len() implies occurs_in(
                    lower@,
                    (#[trigger] hits[k]).0,
                ) by {
                    assert(hits[k].0 == captures[k].matched@);
                }
                assert forall|i: int| 0 <= i < tables.len() implies is_name(#[trigger] tables[i]@)
                    && follows_keyword(lower@, tables[i]@) by {
                    assert(tables.deep_view()[i] == tables[i]@);
                    lemma_tables_follow_keyword(lower@, hits, tables[i]@);
                }
            }
            tables
        },
        None => {
            let tables: Vec<String> = Vec::new();
            assert(tables.deep_view() =~= Seq::empty());
            tables
        },
    }
}

/// The tables that the matches refer to: each name once, in the order of
/// first reference. A match that does not read as the keyword, blanks and a
/// name, or whose group caught nothing, refers to no table.
pub fn tables_from_captures(captures: &Vec<Capture>) -> (tables: Vec<String>)
    ensures
        tables.deep_view() == table_names(captures.deep_view()),
{
    let names = table_candidates(captures);
    unique(&names)
}

/// The characters of `text`, one by one.
pub fn chars_of(text: &str) -> (chars: Vec<char>)
    ensures
        chars@ == text@,
{
    let mut chars: Vec<char> = Vec::new();
    for c in it: text.chars()
        invariant
            it.seq() == text@,
            chars@ == it.seq().take(it.index() as int),
    {
        chars.push(c);
        assert(chars@ =~= it.seq().take(it.index() + 1));
    }
    assert(chars@ =~= text@);
    chars
}

/// The table names that the matches stand for, in the order of the matches.
pub fn table_candidates(captures: &Vec<Capture>) -> (names: Vec<String>)
    ensures
        names.deep_view() == candidates(captures.deep_view()),
{
    let mut names: Vec<String> = Vec::new();
    let mut i: usize = 0;
    assert(captures.deep_view().take(0) =~= Seq::empty());
    assert(names.deep_view() =~= Seq::empty());
    while i < captures.len()
        invariant
            i <= captures.len(),
            names.deep_view() == candidates(captures.deep_view().take(i as int)),
        decreases captures.len() - i,
    {
        let ghost before = names.deep_view();
        assert(captures.deep_view().take(i + 1).drop_last() =~= captures.deep_view().take(
            i as int,
        ));
        match table_in(&captures[i]) {
            Some(name) => {
                names.push(name);
                assert(names.deep_view() =~= before.push(name@));
            },
            None => {},
        }
        i += 1;
    }
    assert(captures.deep_view().take(i as int) =~= captures.deep_view());
    names
}

/// The table name that `capture` stands for, if it stands for one.
#[verifier::loop_isolation(false)]
pub fn table_in(capture: &Capture) -> (table: Option<String>)
    ensures
        table.deep_view() == clause_name(capture.deep_view()),
{
    let name = match &capture.group {
        Some(name) => name,
        None => { return None; },
    };
    let matched = chars_of(capture.matched.as_str());
    let letters = chars_of(name.as_str());
    let total = matched.len();
    let length = letters.len();
    if length == 0 || total < 4 || total - 4 < length {
        return None;
    }
    let gap_end = total - length;
    if matched[0] != 'f' || matched[1] != 'r' || matched[2] != 'o' || matched[3] != 'm' {
        assert(matched@.subrange(0, 4)[0] == matched@[0]);
        assert(matched@.subrange(0, 4)[1] == matched@[1]);
        assert(matched@.subrange(0, 4)[2] == matched@[2]);
        assert(matched@.subrange(0, 4)[3] == matched@[3]);
        return None;
    }
    assert(matched@.subrange(0, 4) =~= keyword());
    let mut i: usize = 4;
    while i < gap_end
        invariant
            4 <= i <= gap_end,
            forall|k: int| 4 <= k < i ==> is_blank(#[trigger] matched@[k]),
        decreases gap_end - i,
    {
        if !blank(matched[i]) {
            return None;
        }
        i += 1;
    }
    let mut j: usize = 0;
    while j < length
        invariant
            j <= length,
            forall|k: int| 0 <= k < j ==> is_name_char(#[trigger] letters@[k]),
            forall|k: int| 0 <= k < j ==> matched@[gap_end + k] == #[trigger] letters@[k],
        decreases length - j,
    {
        if !name_char(letters[j]) {
            return None;
        }
        if matched[gap_end + j] != letters[j] {
            assert(matched@.subrange(gap_end as int, total as int)[j as int] == matched@[gap_end
                + j]);
            return None;
        }
        j += 1;
    }
    assert(matched@.subrange(gap_end as int, total as int) =~= letters@);
    Some(name.clone())
}

/// Tells white space from the rest.
pub fn blank(c: char) -> (b: bool)
    ensures
        b == is_blank(c),
{
    let n: u32 = c as u32;
    (0x09 <= n && n <= 0x0d) || n == 0x20 || n == 0x85 || n == 0xa0 || n == 0x1680 || (0x2000 <= n
        && n <= 0x200a) || n == 0x2028 || n == 0x2029 || n == 0x202f || n == 0x205f || n == 0x3000
}

/// Tells the characters of a name from the rest.
pub fn name_char(c: char) -> (b: bool)
    ensures
        b == is_name_char(c),
{
    let n: u32 = c as u32;
    (0x61 <= n && n <= 0x7a) || (0x41 <= n && n <= 0x5a) || n == 0x5f
}

/// Drops every name that has occurred before. What stays keeps its order.
pub fn unique(names: &Vec<String>) -> (kept: Vec<String>)
    ensures
        kept.deep_view() == first_occurrences(names.deep_view()),
{
    let mut kept: Vec<String> = Vec::new();
    let mut i: usize = 0;
    assert(names.deep_view().take(0) =~= Seq::empty());
    assert(kept.deep_view() =~= Seq::empty());
    while i < names.len()
        invariant
            i <= names.len(),
            kept.deep_view() == first_occurrences(names.deep_view().take(i as int)),
        decreases names.len() - i,
    {
        let ghost before = kept.deep_view();
        assert(names.deep_view().take(i + 1).drop_last() =~= names.deep_view().take(i as int));
        if !contains(&kept, &names[i]) {
            kept.push(names[i].clone());
            assert(kept.deep_view() =~= before.push(names[i as int]@));
        }
        i += 1;
    }
    assert(names.deep_view().take(i as int) =~= names.deep_view());
    kept
}

/// Is `name` one of `names`?
fn contains(names: &Vec<String>, name: &String) -> (found: bool)
    ensures
        found == names.deep_view().contains(name@),
{
    let mut i: usize = 0;
    while i < names.len()
        invariant
            i <= names.len(),
            forall|k: int| 0 <= k < i ==> names[k]@ != name@,
        decreases names.len() - i,
    {
        if names[i] == *name {
            assert(names.deep_view()[i as int] == name@);
            return true;
        }
        i += 1;
    }
    false
}

/// The message for a file that could not be read. The braces are part of
/// the text: no file name is put in.
pub fn error_parsing(_file_name: &str) -> (message: &str)
    ensures
        message@ == "Unable to parse '{_file_name}'"@,
{
    "Unable to parse '{_file_name}'"
}

/// No name occurs twice among the first occurrences.
pub proof fn lemma_first_occurrences_distinct<A>(names: Seq<A>)
    ensures
        first_occurrences(names).no_duplicates(),
    decreases names.len(),
{
    if names.len() > 0 {
        lemma_first_occurrences_distinct(names.drop_last());
    }
}

/// The first occurrences hold the names that were given, and no others.
pub proof fn lemma_first_occurrences_same_names<A>(names: Seq<A>, name: A)
    ensures
        first_occurrences(names).contains(name) <==> names.contains(name),
    decreases names.len(),
{
    if names.len() > 0 {
        let init = names.drop_last();
        let before = first_occurrences(init);
        lemma_first_occurrences_same_names(init, name);
        lemma_first_occurrences_same_names(init, names.last());
        if names.contains(name) {
            let k = choose|k: int| 0 <= k < names.len() && names[k] == name;
            if k < names.len() - 1 {
                assert(init[k] == name);
                assert(before.contains(name));
                let j = choose|j: int| 0 <= j < before.len() && before[j] == name;
                assert(first_occurrences(names)[j] == name);
            } else if before.contains(name) {
            } else {
                assert(first_occurrences(names)[before.len() as int] == name);
            }
        }
        if first_occurrences(names).contains(name) {
            let j = choose|j: int|
                0 <= j < first_occurrences(names).len() && first_occurrences(names)[j] == name;
            if j < before.len() {
                assert(before[j] == name);
                assert(init.contains(name));
                let k = choose|k: int| 0 <= k < init.len() && init[k] == name;
                assert(names[k] == name);
            } else {
                assert(names[names.len() - 1] == name);
            }
        }
    }
}

/// Names that are distinct already are their own first occurrences.
pub proof fn lemma_first_occurrences_of_distinct<A>(names: Seq<A>)
    requires
        names.no_duplicates(),
    ensures
        first_occurrences(names) == names,
    decreases names.len(),
{
    if names.len() > 0 {
        let init = names.drop_last();
        lemma_first_occurrences_of_distinct(init);
        lemma_first_occurrences_same_names(init, names.last());
        if init.contains(names.last()) {
            let k = choose|k: int| 0 <= k < init.len() && init[k] == names.last();
            assert(names[k] == names[names.len() - 1]);
        }
        assert(init.push(names.last()) =~= names);
    } else {
        assert(names =~= Seq::empty());
    }
}

/// Every candidate is the name of one of the matches.
pub proof fn lemma_candidate_has_match(hits: Seq<(Seq<char>, Option<Seq<char>>)>, name: Seq<char>)
    requires
        candidates(hits).contains(name),
    ensures
        exists|k: int| 0 <= k < hits.len() && clause_name(#[trigger] hits[k]) == Some(name),
    decreases hits.len(),
{
    if hits.len() > 0 {
        let init = hits.drop_last();
        let before = candidates(init);
        let j = choose|j: int| 0 <= j < candidates(hits).len() && candidates(hits)[j] == name;
        if j < before.len() {
            assert(before[j] == name);
            lemma_candidate_has_match(init, name);
            let k = choose|k: int| 0 <= k < init.len() && clause_name(#[trigger] init[k]) == Some(name);
            assert(hits[k] == init[k]);
        } else {
            assert(clause_name(hits[hits.len() - 1]) == Some(name));
        }
    }
}

/// A clause that stands in a text puts its name behind the keyword there.
pub proof fn lemma_clause_in_text(text: Seq<char>, at: int, matched: Seq<char>, name: Seq<char>)
    requires
        occurs_at(text, at, matched),
        is_clause(matched, name),
    ensures
        clause_at(text, at, matched.len() - name.len() - 4, name),
{
    let gap_end = matched.len() - name.len();
    let piece = text.subrange(at, at + matched.len());
    assert(text.subrange(at, at + 4) =~= piece.subrange(0, 4));
    assert(text.subrange(at + gap_end, at + gap_end + name.len()) =~= piece.subrange(
        gap_end,
        matched.len() as int,
    ));
    assert forall|i: int| at + 4 <= i < at + gap_end implies is_blank(#[trigger] text[i]) by {
        assert(text[i] == piece[i - at]);
    }
}

/// Every table that a run of matches refers to is a name, and it stands
/// behind the keyword in any text that holds those matches.
pub proof fn lemma_tables_follow_keyword(
    text: Seq<char>,
    hits: Seq<(Seq<char>, Option<Seq<char>>)>,
    name: Seq<char>,
)
    requires
        forall|k: int| 0 <= k < hits.len() ==> occurs_in(text, (#[trigger] hits[k]).0),
        table_names(hits).contains(name),
    ensures
        is_name(name),
        follows_keyword(text, name),
{
    lemma_first_occurrences_same_names(candidates(hits), name);
    lemma_candidate_has_match(hits, name);
    let k = choose|k: int| 0 <= k < hits.len() && clause_name(#[trigger] hits[k]) == Some(name);
    let at = choose|at: int| occurs_at(text, at, hits[k].0);
    lemma_clause_in_text(text, at, hits[k].0, name);
}

} // verus!
