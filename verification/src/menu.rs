//! Runtime config browser: which files it lists, how it pages and what it says.
use crate::input::{Cursor, Rect};
use crate::order::sort_by_key;
use crate::text::{
    characters, decimal_text, path_extension, path_file_name, path_stem, same, same_ignoring_case,
};
use vstd::prelude::*;
use vstd::string::StringExecFns;

verus! {

#[derive(Debug)]
pub struct Entry {
    pub path: String,
    pub name: String,
}

pub struct EntryView {
    pub path: Seq<char>,
    pub name: Seq<char>,
}

impl View for Entry {
    type V = EntryView;

    open spec fn view(&self) -> EntryView {
        EntryView { path: self.path@, name: self.name@ }
    }
}

/// A number with at least two digits.
pub open spec fn two_digits(n: nat) -> Seq<char> {
    if n < 10 {
        "0"@ + crate::text::decimal(n)
    } else {
        crate::text::decimal(n)
    }
}

impl EntryView {
    pub open spec fn title(self, index: nat) -> Seq<char> {
        let stem = crate::text::file_stem(self.path);
        if stem == Some("puzzle"@) {
            "First field study"@
        } else if stem == Some("halo"@) {
            "Amber horizon"@
        } else if stem == Some("median-resonance"@) {
            "Clockwork sky"@
        } else if stem == Some("solar-system"@) {
            "Distant lights"@
        } else {
            "Uncharted map "@ + two_digits(index + 1)
        }
    }

    /// The map that a puzzle offers first.
    pub open spec fn is_puzzle(self) -> bool {
        crate::text::file_stem(self.path) == Some("puzzle"@)
    }
}

impl Entry {
    /// Puzzle titles avoid revealing body names, moon counts, or filenames.
    pub fn puzzle_title(&self, index: usize) -> (r: String)
        requires
            index < usize::MAX,
        ensures
            r@ == self@.title(index as nat),
    {
        if let Some(stem) = path_stem(self.path.as_str()) {
            let stem = stem.as_str();
            if same(stem, "puzzle") {
                return String::from_str("First field study");
            }
            if same(stem, "halo") {
                return String::from_str("Amber horizon");
            }
            if same(stem, "median-resonance") {
                return String::from_str("Clockwork sky");
            }
            if same(stem, "solar-system") {
                return String::from_str("Distant lights");
            }
        }
        let mut r = String::from_str("Uncharted map ");
        if index + 1 < 10 {
            r.append("0");
        }
        r.append(decimal_text((index + 1) as u64).as_str());
        assert(r@ =~= "Uncharted map "@ + two_digits((index + 1) as nat));
        r
    }

    fn is_puzzle(&self) -> (r: bool)
        ensures
            r == self@.is_puzzle(),
    {
        match path_stem(self.path.as_str()) {
            Some(stem) => same(stem.as_str(), "puzzle"),
            None => false,
        }
    }
}

/// One entry of a directory.
#[derive(Debug)]
pub struct File {
    pub path: String,
    pub is_file: bool,
    /// The name that the file gives itself, if it can be read.
    pub title: Option<String>,
}

impl File {
    /// A regular file with a YAML extension, in whatever case.
    pub open spec fn listed(self) -> bool {
        self.is_file && (crate::text::file_extension(self.path@) matches Some(e) && (
        crate::text::lowered(e) == crate::text::lowered("yaml"@) || crate::text::lowered(e)
            == crate::text::lowered("yml"@)))
    }

    /// Files that do not name themselves go by their stem.
    pub open spec fn entry(self) -> EntryView {
        EntryView {
            path: self.path@,
            name: match self.title {
                Some(title) => title@,
                None => match crate::text::file_stem(self.path@) {
                    Some(stem) => stem,
                    None => Seq::empty(),
                },
            },
        }
    }

    /// Whether the file is a map; others need not be read.
    pub fn is_listed(&self) -> (r: bool)
        ensures
            r == self.listed(),
    {
        if !self.is_file {
            return false;
        }
        match path_extension(self.path.as_str()) {
            Some(e) => same_ignoring_case(e.as_str(), "yaml") || same_ignoring_case(
                e.as_str(),
                "yml",
            ),
            None => false,
        }
    }

    fn to_entry(&self) -> (r: Entry)
        ensures
            r@ == self.entry(),
    {
        let name = match &self.title {
            Some(title) => title.clone(),
            None => match path_stem(self.path.as_str()) {
                Some(stem) => stem,
                None => String::new(),
            },
        };
        Entry { path: self.path.clone(), name }
    }
}

/// The order of path characters: a separator comes before all others, so that
/// paths are compared part by part.
pub open spec fn weight(c: char) -> int {
    let code = c as u32;
    if code == 0x2F {
        -1
    } else {
        code as int
    }
}

pub open spec fn precedes(a: Seq<char>, b: Seq<char>) -> bool
    decreases a.len(),
{
    if b.len() == 0 {
        false
    } else if a.len() == 0 {
        true
    } else if weight(a[0]) != weight(b[0]) {
        weight(a[0]) < weight(b[0])
    } else {
        precedes(a.skip(1), b.skip(1))
    }
}

proof fn lemma_precedes_transitive(a: Seq<char>, b: Seq<char>, c: Seq<char>)
    requires
        precedes(a, b),
        precedes(b, c),
    ensures
        precedes(a, c),
    decreases a.len(),
{
    if a.len() > 0 && weight(a[0]) == weight(b[0]) && weight(b[0]) == weight(c[0]) {
        lemma_precedes_transitive(a.skip(1), b.skip(1), c.skip(1));
    }
}

proof fn lemma_precedes_irreflexive(a: Seq<char>)
    ensures
        !precedes(a, a),
    decreases a.len(),
{
    if a.len() > 0 {
        lemma_precedes_irreflexive(a.skip(1));
    }
}

fn comes_before(a: &str, b: &str) -> (r: bool)
    ensures
        r == precedes(a@, b@),
{
    let x = characters(a);
    let y = characters(b);
    let mut i: usize = 0;
    assert(a@.skip(0) =~= a@);
    assert(b@.skip(0) =~= b@);
    while i < x.len() && i < y.len()
        invariant
            x@ == a@,
            y@ == b@,
            i <= x@.len(),
            i <= y@.len(),
            precedes(a@, b@) == precedes(a@.skip(i as int), b@.skip(i as int)),
        decreases x.len() - i,
    {
        let c: u32 = x[i] as u32;
        let d: u32 = y[i] as u32;
        assert(a@.skip(i as int)[0] == x@[i as int]);
        assert(b@.skip(i as int)[0] == y@[i as int]);
        if c != d {
            return c == 0x2F || (d != 0x2F && c < d);
        }
        assert(a@.skip(i as int).skip(1) =~= a@.skip(i + 1));
        assert(b@.skip(i as int).skip(1) =~= b@.skip(i + 1));
        i += 1;
    }
    i < y.len()
}

/// How many of the first `n` files come before file `i`.
pub open spec fn earlier(files: Seq<File>, i: int, n: nat) -> nat
    decreases n,
{
    if n == 0 {
        0
    } else {
        earlier(files, i, (n - 1) as nat) + (if precedes(files[n - 1].path@, files[i].path@) {
            1nat
        } else {
            0
        })
    }
}

pub open spec fn places(files: Seq<File>) -> Seq<i128> {
    Seq::new(files.len(), |i: int| earlier(files, i, files.len()) as i128)
}

/// The files that are listed, in the order of their paths.
pub open spec fn listing(files: Seq<File>) -> Seq<usize> {
    crate::order::sorted_by(
        crate::order::picked(files.len(), |i: int| files[i].listed()),
        places(files),
    )
}

proof fn lemma_earlier(files: Seq<File>, i: int, j: int, n: nat)
    requires
        0 <= i < files.len(),
        0 <= j < files.len(),
        n <= files.len(),
        precedes(files[i].path@, files[j].path@),
    ensures
        earlier(files, i, n) <= earlier(files, j, n) <= n,
        i < n ==> earlier(files, i, n) < earlier(files, j, n),
    decreases n,
{
    if n > 0 {
        lemma_earlier(files, i, j, (n - 1) as nat);
        lemma_precedes_irreflexive(files[i].path@);
        if precedes(files[n - 1].path@, files[i].path@) {
            lemma_precedes_transitive(files[n - 1].path@, files[i].path@, files[j].path@);
        }
    }
}

/// The listing holds exactly the YAML files, none before one whose path
/// precedes it.
pub proof fn law_listing_is_sorted(files: Seq<File>)
    requires
        files.len() <= usize::MAX,
    ensures
        forall|i: usize| #[trigger]
            listing(files).contains(i) <==> i < files.len() && files[i as int].listed(),
        listing(files).no_duplicates(),
        forall|a: int, b: int|
            0 <= a < b < listing(files).len() ==> !precedes(
                files[#[trigger] listing(files)[b] as int].path@,
                files[#[trigger] listing(files)[a] as int].path@,
            ),
{
    let p = |i: int| files[i].listed();
    let kept = crate::order::picked(files.len(), p);
    let s = listing(files);
    crate::order::lemma_picked(files.len(), p);
    crate::order::law_stable_sort(kept, places(files));
    crate::topology::lemma_permuted(kept, s);
    assert forall|a: int, b: int| 0 <= a < b < s.len() implies !precedes(
        files[#[trigger] s[b] as int].path@,
        files[#[trigger] s[a] as int].path@,
    ) by {
        assert(s.contains(s[a]));
        assert(s.contains(s[b]));
        if precedes(files[s[b] as int].path@, files[s[a] as int].path@) {
            lemma_earlier(files, s[b] as int, s[a] as int, files.len());
        }
    }
}

proof fn lemma_earlier_bound(files: Seq<File>, i: int, n: nat)
    ensures
        earlier(files, i, n) <= n,
    decreases n,
{
    if n > 0 {
        lemma_earlier_bound(files, i, (n - 1) as nat);
    }
}

fn count_earlier(files: &Vec<File>, i: usize) -> (r: i128)
    requires
        i < files@.len(),
    ensures
        r == earlier(files@, i as int, files@.len()),
{
    let mut r: usize = 0;
    let mut j: usize = 0;
    while j < files.len()
        invariant
            i < files@.len(),
            j <= files@.len(),
            r <= j,
            r == earlier(files@, i as int, j as nat),
        decreases files.len() - j,
    {
        if comes_before(files[j].path.as_str(), files[i].path.as_str()) {
            r += 1;
        }
        j += 1;
    }
    r as i128
}

/// The entries for the files of a directory.
pub fn discover(files: &Vec<File>) -> (r: Vec<Entry>)
    ensures
        r@.len() == listing(files@).len(),
        forall|k: int|
            0 <= k < r@.len() ==> (#[trigger] r@[k])@ == files@[listing(
                files@,
            )[k] as int].entry(),
{
    let mut keys: Vec<i128> = Vec::new();
    let mut kept: Vec<usize> = Vec::new();
    let ghost p = |i: int| files@[i].listed();
    let mut i: usize = 0;
    while i < files.len()
        invariant
            i <= files@.len(),
            p == (|i: int| files@[i].listed()),
            kept@ == crate::order::picked(i as nat, p),
            keys@ == places(files@).take(i as int),
        decreases files.len() - i,
    {
        if files[i].is_listed() {
            kept.push(i);
        }
        keys.push(count_earlier(files, i));
        proof {
            lemma_earlier_bound(files@, i as int, files@.len());
        }
        i += 1;
        assert(places(files@).take(i as int) =~= places(files@).take(i - 1).push(
            places(files@)[i - 1],
        ));
    }
    assert(places(files@).take(i as int) =~= places(files@));
    proof {
        crate::order::lemma_picked(files@.len(), p);
        law_listing_is_sorted(files@);
        assert forall|j: int| 0 <= j < listing(files@).len() implies (#[trigger] listing(files@)[j])
            < files@.len() by {
            assert(listing(files@).contains(listing(files@)[j]));
        }
    }
    let order = sort_by_key(&kept, &keys);
    let mut r: Vec<Entry> = Vec::new();
    let mut k: usize = 0;
    while k < order.len()
        invariant
            k <= order@.len(),
            order@ == listing(files@),
            r@.len() == k,
            forall|j: int|
                0 <= j < order@.len() ==> (#[trigger] listing(files@)[j]) < files@.len(),
            forall|j: int|
                0 <= j < k ==> (#[trigger] r@[j])@ == files@[listing(files@)[j] as int].entry(),
        decreases order.len() - k,
    {
        assert(listing(files@)[k as int] < files@.len());
        r.push(files[order[k]].to_entry());
        k += 1;
    }
    r
}

#[derive(Debug)]
pub struct Menu {
    pub open: bool,
    pub entries: Vec<Entry>,
    pub offset: usize,
    pub error: Option<String>,
}

#[verifier::ext_equal]
pub struct MenuView {
    pub open: bool,
    pub entries: Seq<EntryView>,
    pub offset: usize,
    pub error: Option<Seq<char>>,
}

pub open spec fn entry_views(entries: Seq<Entry>) -> Seq<EntryView> {
    entries.map_values(|e: Entry| e@)
}

pub open spec fn text_view(text: Option<String>) -> Option<Seq<char>> {
    match text {
        Some(s) => Some(s@),
        None => None,
    }
}

impl View for Menu {
    type V = MenuView;

    open spec fn view(&self) -> MenuView {
        MenuView {
            open: self.open,
            entries: entry_views(self.entries@),
            offset: self.offset,
            error: text_view(self.error),
        }
    }
}

/// What the menu's controls cover.
#[derive(Debug)]
pub struct Layout {
    pub home: Rect,
    pub rows: Vec<Rect>,
    pub previous: Rect,
    pub next: Rect,
    pub resume: Rect,
}

/// The entries of a puzzle: its own map first, the rest in their order.
pub open spec fn puzzle_first(entries: Seq<EntryView>) -> Seq<EntryView> {
    entries.filter(|e: EntryView| e.is_puzzle()) + entries.filter(|e: EntryView| !e.is_puzzle())
}

impl MenuView {
    pub open spec fn initial() -> MenuView {
        MenuView { open: false, entries: Seq::empty(), offset: 0, error: None }
    }

    /// Opened on the first page of a new listing.
    pub open spec fn refreshed(self, found: Result<Vec<File>, String>) -> MenuView {
        match found {
            Ok(files) => MenuView {
                open: true,
                entries: listing(files@).map_values(|i: usize| files@[i as int].entry()),
                offset: 0,
                error: None,
            },
            Err(error) => MenuView {
                open: true,
                entries: Seq::empty(),
                offset: 0,
                error: Some("Cannot read configs: "@ + error@),
            },
        }
    }

    pub open spec fn paged_back(self, page: nat) -> MenuView {
        MenuView {
            offset: if self.offset < page {
                0
            } else {
                (self.offset - page) as usize
            },
            ..self
        }
    }

    /// Whether entries follow the page.
    pub open spec fn has_next(self, page: nat) -> bool {
        self.offset + page < self.entries.len()
    }

    pub open spec fn paged_forward(self, page: nat) -> MenuView {
        if self.has_next(page) {
            MenuView { offset: (self.offset + page) as usize, ..self }
        } else {
            self
        }
    }

    /// The entry that a row of the page shows.
    pub open spec fn at_row(self, row: nat) -> Option<usize> {
        if self.offset + row < self.entries.len() {
            Some((self.offset + row) as usize)
        } else {
            None
        }
    }

    /// What the line at the bottom says.
    pub open spec fn message(self, puzzle: bool) -> Seq<char> {
        match self.error {
            Some(error) => error,
            None => if self.entries.len() == 0 {
                "No YAML systems found in configs."@
            } else if puzzle {
                "Choosing a map clears your theory. Resume keeps your current puzzle."@
            } else {
                "Esc or home: resume current view"@
            },
        }
    }

    /// The heading of a row.
    pub open spec fn row_title(self, row: nat, puzzle: bool) -> Seq<char> {
        let i = self.offset + row;
        "["@ + crate::text::decimal(row + 1) + "] "@ + (if puzzle {
            self.entries[i as int].title(i as nat)
        } else {
            self.entries[i as int].name
        })
    }

    /// The small print of a row.
    pub open spec fn row_detail(self, row: nat, puzzle: bool) -> Seq<char> {
        if puzzle {
            "Start a fresh theory"@
        } else {
            match crate::text::file_name(self.entries[self.offset + row].path) {
                Some(name) => name,
                None => Seq::empty(),
            }
        }
    }
}

impl Default for Menu {
    fn default() -> (r: Self)
        ensures
            r@ == MenuView::initial(),
    {
        let r = Menu { open: false, entries: Vec::new(), offset: 0, error: None };
        assert(r@ =~= MenuView::initial());
        r
    }
}

impl Menu {
    /// Opens the menu on what the directory holds, or on why it cannot be read.
    pub fn refresh(&mut self, found: Result<Vec<File>, String>)
        ensures
            final(self)@ == old(self)@.refreshed(found),
    {
        self.open = true;
        self.offset = 0;
        match found {
            Ok(files) => {
                self.error = None;
                self.entries = discover(&files);
            },
            Err(error) => {
                self.entries.clear();
                let mut message = String::from_str("Cannot read configs: ");
                message.append(error.as_str());
                self.error = Some(message);
            },
        }
        assert(self@ =~= old(self)@.refreshed(found));
    }

    pub fn page_back(&mut self, page: usize)
        ensures
            final(self)@ == old(self)@.paged_back(page as nat),
    {
        self.offset = if self.offset < page {
            0
        } else {
            self.offset - page
        };
    }

    pub fn has_more(&self, page: usize) -> (r: bool)
        ensures
            r == self@.has_next(page as nat),
    {
        self.offset < self.entries.len() && page < self.entries.len() - self.offset
    }

    pub fn page_forward(&mut self, page: usize)
        ensures
            final(self)@ == old(self)@.paged_forward(page as nat),
    {
        let n: usize = self.entries.len();
        assert(n == self@.entries.len());
        if self.has_more(page) {
            self.offset += page;
        }
    }

    /// Index of the entry that a row of the page shows.
    pub fn entry_at(&self, row: usize) -> (r: Option<usize>)
        ensures
            r == self@.at_row(row as nat),
            r matches Some(i) ==> i < self@.entries.len(),
    {
        let n: usize = self.entries.len();
        assert(n == self@.entries.len());
        if self.has_more(row) {
            Some(self.offset + row)
        } else {
            None
        }
    }

    /// Puts the puzzle's own map first; the others keep their order.
    pub fn puzzle_order(&mut self)
        ensures
            final(self)@ == (MenuView {
                entries: puzzle_first(old(self)@.entries),
                ..old(self)@
            }),
    {
        let ghost all = self@.entries;
        let ghost is = |e: EntryView| e.is_puzzle();
        let ghost is_not = |e: EntryView| !e.is_puzzle();
        let mut first: Vec<Entry> = Vec::new();
        let mut rest: Vec<Entry> = Vec::new();
        let mut i: usize = 0;
        proof {
            reveal(Seq::filter);
            assert(all.take(0).filter(is) =~= Seq::<EntryView>::empty());
            assert(all.take(0).filter(is_not) =~= Seq::<EntryView>::empty());
        }
        while i < self.entries.len()
            invariant
                i <= self.entries@.len(),
                self.entries@ == old(self).entries@,
                all == entry_views(self.entries@),
                is == (|e: EntryView| e.is_puzzle()),
                is_not == (|e: EntryView| !e.is_puzzle()),
                entry_views(first@) == all.take(i as int).filter(is),
                entry_views(rest@) == all.take(i as int).filter(is_not),
                self.open == old(self).open,
                self.offset == old(self).offset,
                self.error == old(self).error,
            decreases self.entries.len() - i,
        {
            let e = &self.entries[i];
            let copy = Entry { path: e.path.clone(), name: e.name.clone() };
            assert(copy@ == all[i as int]);
            let ghost before = first@;
            let ghost before_rest = rest@;
            proof {
                reveal(Seq::filter);
                assert(all.take(i + 1).drop_last() =~= all.take(i as int));
            }
            if e.is_puzzle() {
                first.push(copy);
                assert(entry_views(first@) =~= entry_views(before).push(all[i as int]));
            } else {
                rest.push(copy);
                assert(entry_views(rest@) =~= entry_views(before_rest).push(all[i as int]));
            }
            i += 1;
        }
        assert(all.take(i as int) =~= all);
        let ghost head = first@;
        let ghost tail = rest@;
        first.append(&mut rest);
        assert(entry_views(first@) =~= entry_views(head) + entry_views(tail));
        self.entries = first;
    }

    /// What the line at the bottom says.
    pub fn message(&self, puzzle: bool) -> (r: String)
        ensures
            r@ == self@.message(puzzle),
    {
        match &self.error {
            Some(error) => error.clone(),
            None => String::from_str(
                if self.entries.len() == 0 {
                    "No YAML systems found in configs."
                } else if puzzle {
                    "Choosing a map clears your theory. Resume keeps your current puzzle."
                } else {
                    "Esc or home: resume current view"
                },
            ),
        }
    }

    /// The heading of a row.
    pub fn row_title(&self, row: usize, puzzle: bool) -> (r: String)
        requires
            self@.at_row(row as nat) is Some,
        ensures
            r@ == self@.row_title(row as nat, puzzle),
    {
        let n: usize = self.entries.len();
        assert(n == self@.entries.len());
        let i: usize = self.offset + row;
        let mut r = String::from_str("[");
        r.append(decimal_text(row as u64 + 1).as_str());
        r.append("] ");
        if puzzle {
            r.append(self.entries[i].puzzle_title(i).as_str());
        } else {
            r.append(self.entries[i].name.as_str());
        }
        r
    }

    /// The small print of a row.
    pub fn row_detail(&self, row: usize, puzzle: bool) -> (r: String)
        requires
            self@.at_row(row as nat) is Some,
        ensures
            r@ == self@.row_detail(row as nat, puzzle),
    {
        if puzzle {
            String::from_str("Start a fresh theory")
        } else {
            let n: usize = self.entries.len();
            assert(n == self@.entries.len());
            match path_file_name(self.entries[self.offset + row].path.as_str()) {
                Some(name) => name,
                None => String::new(),
            }
        }
    }
}

/// Index of the first row, from `from` on, that holds the place.
pub fn row_at(rows: &Vec<Rect>, at: Cursor) -> (r: Option<usize>)
    ensures
        r == crate::input::first_at(rows@, at, 0),
        r matches Some(i) ==> i < rows@.len(),
{
    let mut i: usize = 0;
    while i < rows.len()
        invariant
            i <= rows@.len(),
            crate::input::first_at(rows@, at, 0) == crate::input::first_at(rows@, at, i as nat),
        decreases rows.len() - i,
    {
        if rows[i].contains(at) {
            return Some(i);
        }
        i += 1;
    }
    None
}

/// Puzzle titles reveal no name, and of a map that is not one of the bundled
/// ones not even the file.
pub proof fn law_titles_reveal_nothing(a: EntryView, b: EntryView, index: nat)
    ensures
        a.path == b.path ==> a.title(index) == b.title(index),
        !bundled(a) && !bundled(b) ==> a.title(index) == b.title(index),
{
}

/// Whether an entry is one of the maps with a title of their own.
pub open spec fn bundled(e: EntryView) -> bool {
    let stem = crate::text::file_stem(e.path);
    ||| stem == Some("puzzle"@)
    ||| stem == Some("halo"@)
    ||| stem == Some("median-resonance"@)
    ||| stem == Some("solar-system"@)
}

/// The puzzle's own map comes first, where there is one, and sorting by it
/// neither adds nor drops an entry.
pub proof fn law_puzzle_first(entries: Seq<EntryView>)
    ensures
        puzzle_first(entries).to_multiset() == entries.to_multiset(),
        puzzle_first(entries).len() == entries.len(),
        (exists|i: int| 0 <= i < entries.len() && (#[trigger] entries[i]).is_puzzle())
            ==> puzzle_first(entries)[0].is_puzzle(),
    decreases entries.len(),
{
    broadcast use vstd::seq_lib::group_to_multiset_ensures;

    reveal(Seq::filter);
    let is = |e: EntryView| e.is_puzzle();
    let is_not = |e: EntryView| !e.is_puzzle();
    let a = entries.filter(is);
    let b = entries.filter(is_not);
    vstd::seq_lib::lemma_multiset_commutative(a, b);
    if entries.len() > 0 {
        let rest = entries.drop_last();
        let x = entries.last();
        law_puzzle_first(rest);
        let c = rest.filter(is);
        let d = rest.filter(is_not);
        vstd::seq_lib::lemma_multiset_commutative(c, d);
        assert(entries =~= rest.push(x));
        assert(entries.to_multiset() =~= rest.to_multiset().insert(x));
        assert((a + b).to_multiset() =~= (c + d).to_multiset().insert(x));
        if exists|i: int| 0 <= i < entries.len() && (#[trigger] entries[i]).is_puzzle() {
            let i = choose|i: int| 0 <= i < entries.len() && (#[trigger] entries[i]).is_puzzle();
            if i < rest.len() {
                assert(rest[i].is_puzzle());
                entries.lemma_filter_contains(is, i);
                entries.lemma_filter_pred(is, 0);
            } else {
                entries.lemma_filter_contains(is, i);
                entries.lemma_filter_pred(is, 0);
            }
        }
    }
}

/// Paths are ordered part by part: what they begin with alike plays no part, a path
/// comes before its own continuations, a separator before any other character, and
/// other characters by their code. Of two different paths one comes first.
pub proof fn law_path_order(p: Seq<char>, a: Seq<char>, b: Seq<char>, c: char, d: char)
    ensures
        precedes(p + a, p + b) == precedes(a, b),
        a.len() > 0 ==> precedes(p, p + a),
        c != '/' ==> precedes(p.push('/') + a, p.push(c) + b),
        c != '/' && d != '/' && (c as u32) < (d as u32) ==> precedes(p.push(c) + a, p.push(d) + b),
        !precedes(a, a),
        a != b ==> precedes(a, b) || precedes(b, a),
        precedes(a, b) ==> !precedes(b, a),
{
    lemma_common_prefix(p, a, b);
    lemma_common_prefix(p, Seq::empty(), a);
    assert(p + Seq::<char>::empty() =~= p);
    let x = seq!['/'] + a;
    let y = seq![c] + b;
    lemma_common_prefix(p, x, y);
    assert(p.push('/') + a =~= p + x);
    assert(p.push(c) + b =~= p + y);
    lemma_slash(c);
    let u = seq![c] + a;
    let v = seq![d] + b;
    lemma_common_prefix(p, u, v);
    assert(p.push(c) + a =~= p + u);
    assert(p.push(d) + b =~= p + v);
    lemma_slash(d);
    lemma_precedes_irreflexive(a);
    lemma_some_order(a, b);
    if precedes(a, b) && precedes(b, a) {
        lemma_precedes_transitive(a, b, a);
    }
}

proof fn lemma_slash(c: char)
    ensures
        c == '/' <==> c as u32 == 0x2F,
        weight('/') < weight(c) <==> c != '/',
        c != '/' ==> weight(c) == c as u32,
{
}

proof fn lemma_common_prefix(p: Seq<char>, a: Seq<char>, b: Seq<char>)
    ensures
        precedes(p + a, p + b) == precedes(a, b),
    decreases p.len(),
{
    if p.len() == 0 {
        assert(p + a =~= a);
        assert(p + b =~= b);
    } else {
        let q = p.skip(1);
        lemma_common_prefix(q, a, b);
        assert((p + a).skip(1) =~= q + a);
        assert((p + b).skip(1) =~= q + b);
        assert((p + a)[0] == p[0] && (p + b)[0] == p[0]);
    }
}

proof fn lemma_weights(a: char, b: char)
    requires
        weight(a) == weight(b),
    ensures
        a == b,
{
}

proof fn lemma_some_order(a: Seq<char>, b: Seq<char>)
    ensures
        a != b ==> precedes(a, b) || precedes(b, a),
    decreases a.len(),
{
    if a.len() > 0 && b.len() > 0 && weight(a[0]) == weight(b[0]) {
        lemma_some_order(a.skip(1), b.skip(1));
        lemma_weights(a[0], b[0]);
        if a.skip(1) == b.skip(1) {
            assert(a =~= seq![a[0]] + a.skip(1));
            assert(b =~= seq![b[0]] + b.skip(1));
        }
    } else if a.len() == 0 && b.len() == 0 {
        assert(a =~= b);
    }
}

/// The maps are the regular files whose name ends in `.yaml` or `.yml`, in whatever
/// case.
pub proof fn law_which_files_are_maps(file: File)
    ensures
        file.listed() ==> file.is_file,
        crate::text::file_name(file.path@) is None ==> !file.listed(),
        crate::text::file_name(file.path@) matches Some(name) ==> (file.listed() <==> file.is_file
            && {
            let e = crate::text::extension(name);
            &&& e is Some
            &&& crate::text::lowered(e->0) == seq!['y', 'a', 'm', 'l'] || crate::text::lowered(
                e->0,
            ) == seq!['y', 'm', 'l']
        }),
{
    reveal_strlit("yaml");
    reveal_strlit("yml");
    assert(crate::text::lowered("yaml"@) =~= seq!['y', 'a', 'm', 'l']);
    assert(crate::text::lowered("yml"@) =~= seq!['y', 'm', 'l']);
}

/// An entry keeps its file's path, and goes by the name that the file gives itself or
/// else by its stem.
pub proof fn law_entries(file: File)
    ensures
        file.entry().path == file.path@,
        file.title is Some ==> file.entry().name == file.title->0@,
        file.title is None && crate::text::file_stem(file.path@) is Some ==> file.entry().name
            == crate::text::file_stem(file.path@)->0,
        file.title is None && crate::text::file_stem(file.path@) is None
            ==> file.entry().name.len() == 0,
{
}

/// The bundled maps have titles of their own, the others their number in at least two
/// digits, counted from one.
pub proof fn law_titles(e: EntryView, index: nat)
    ensures
        ({
            let stem = crate::text::file_stem(e.path);
            let number = e.title(index).skip(14);
            &&& stem == Some("puzzle"@) ==> e.title(index) == "First field study"@
            &&& stem == Some("halo"@) ==> e.title(index) == "Amber horizon"@
            &&& stem == Some("median-resonance"@) ==> e.title(index) == "Clockwork sky"@
            &&& stem == Some("solar-system"@) ==> e.title(index) == "Distant lights"@
            &&& !bundled(e) ==> {
                &&& e.title(index).take(14) == "Uncharted map "@
                &&& number.len() >= 2
                &&& crate::text::all_digits(number)
                &&& crate::text::numeral_value(number) == index + 1
                &&& number.len() > 2 ==> number[0] != '0'
            }
        }),
{
    reveal_strlit("puzzle");
    reveal_strlit("halo");
    reveal_strlit("median-resonance");
    reveal_strlit("solar-system");
    reveal_strlit("Uncharted map ");
    reveal_strlit("0");
    assert("puzzle"@[0] == 'p' && "halo"@[0] == 'h' && "median-resonance"@[0] == 'm'
        && "solar-system"@[0] == 's');
    let n = index + 1;
    let d = crate::text::decimal(n);
    crate::text::law_numerals(n);
    if !bundled(e) {
        let number = e.title(index).skip(14);
        assert(e.title(index).take(14) =~= "Uncharted map "@);
        assert(number =~= two_digits(n));
        if n < 10 {
            assert(d =~= seq![crate::text::digit(n)]);
            assert(number =~= seq!['0', crate::text::digit(n)]);
            crate::text::law_places_count_tenfold(Seq::empty(), 0);
            crate::text::law_places_count_tenfold(seq!['0'], n);
            assert(Seq::<char>::empty().push(crate::text::digit(0)) =~= seq!['0']);
            assert(seq!['0'].push(crate::text::digit(n)) =~= number);
            assert(crate::text::all_digits(number));
        }
    }
}

/// Paging goes by the number of rows: forward only where entries follow, backward no
/// further than the beginning, and back from where forward led. Nothing else of the
/// menu changes.
pub proof fn law_paging(m: MenuView, page: nat)
    requires
        m.entries.len() <= usize::MAX,
    ensures
        ({
            let next = m.paged_forward(page);
            let back = m.paged_back(page);
            &&& next == (MenuView { offset: next.offset, ..m })
            &&& back == (MenuView { offset: back.offset, ..m })
            &&& m.offset + page < m.entries.len() ==> next.offset == m.offset + page
                && next.paged_back(page) == m
            &&& m.offset + page >= m.entries.len() ==> next == m
            &&& m.has_next(page) <==> m.offset + page < m.entries.len()
            &&& m.offset >= page ==> back.offset + page == m.offset
            &&& m.offset < page ==> back.offset == 0
        }),
{
}

/// A row shows the entry as many places behind the page's first, where there is one.
pub proof fn law_rows(m: MenuView, row: nat, i: usize)
    requires
        m.entries.len() <= usize::MAX,
    ensures
        m.at_row(row) == Some(i) <==> i == m.offset + row && i < m.entries.len(),
        m.at_row(row) is None <==> m.offset + row >= m.entries.len(),
{
}

/// A row is headed by its key, counted from one, and the entry's name, or in a puzzle
/// its title; the small print is the file's name, or in a puzzle nothing of it.
pub proof fn law_row_texts(m: MenuView, row: nat)
    ensures
        ({
            let e = m.entries[m.offset + row];
            let key = crate::text::decimal(row + 1);
            let k = key.len() as int;
            let plain = m.row_title(row, false);
            let puzzle = m.row_title(row, true);
            &&& plain[0] == '[' && puzzle[0] == '['
            &&& plain.subrange(1, 1 + k) == key && puzzle.subrange(1, 1 + k) == key
            &&& plain.skip(3 + k) == e.name
            &&& puzzle.skip(3 + k) == e.title((m.offset + row) as nat)
            &&& m.row_detail(row, true) == "Start a fresh theory"@
            &&& crate::text::file_name(e.path) is Some ==> m.row_detail(row, false)
                == crate::text::file_name(e.path)->0
            &&& crate::text::file_name(e.path) is None ==> m.row_detail(row, false).len() == 0
        }),
{
    reveal_strlit("[");
    reveal_strlit("] ");
    let e = m.entries[m.offset + row];
    let key = crate::text::decimal(row + 1);
    let k = key.len() as int;
    let plain = m.row_title(row, false);
    let puzzle = m.row_title(row, true);
    crate::text::law_numerals(row + 1);
    assert(plain.subrange(1, 1 + k) =~= key);
    assert(puzzle.subrange(1, 1 + k) =~= key);
    assert(plain.skip(3 + k) =~= e.name);
    assert(puzzle.skip(3 + k) =~= e.title((m.offset + row) as nat));
}

/// The line at the bottom is the error if there is one, says so if nothing is listed,
/// and otherwise how to go back.
pub proof fn law_bottom_lines(m: MenuView, puzzle: bool)
    ensures
        m.error matches Some(e) ==> m.message(puzzle) == e,
        m.error is None && m.entries.len() == 0 ==> m.message(puzzle)
            == "No YAML systems found in configs."@,
        m.error is None && m.entries.len() > 0 ==> m.message(true)
            == "Choosing a map clears your theory. Resume keeps your current puzzle."@
            && m.message(false) == "Esc or home: resume current view"@,
{
}

/// A new listing opens the menu on its first page: with the maps that were found, in
/// the order of their paths and without an error, or with none and the reason.
pub proof fn law_new_listings(m: MenuView, found: Result<Vec<File>, String>, k: int)
    ensures
        ({
            let r = m.refreshed(found);
            &&& r.open && r.offset == 0
            &&& found matches Ok(files) ==> {
                &&& r.error is None
                &&& r.entries.len() == listing(files@).len()
                &&& 0 <= k < r.entries.len() ==> r.entries[k].path == files@[listing(
                    files@,
                )[k] as int].path@
            }
            &&& found matches Err(error) ==> {
                &&& r.entries.len() == 0
                &&& r.error is Some
                &&& r.error->0.len() == 21 + error@.len()
                &&& r.error->0.skip(21) == error@
            }
        }),
        !MenuView::initial().open,
        MenuView::initial().entries.len() == 0,
        MenuView::initial().offset == 0,
        MenuView::initial().error is None,
{
    reveal_strlit("Cannot read configs: ");
    if let Err(error) = found {
        assert(m.refreshed(found).error->0.skip(21) =~= error@);
    }
}

/// Putting the puzzle's map first moves nothing else: the puzzle's maps keep their
/// order, and so do the others, all behind them.
pub proof fn law_puzzle_order(entries: Seq<EntryView>)
    ensures
        ({
            let is = |e: EntryView| e.is_puzzle();
            let is_not = |e: EntryView| !e.is_puzzle();
            let n = entries.filter(is).len() as int;
            let r = puzzle_first(entries);
            &&& n <= r.len()
            &&& r.take(n) == entries.filter(is)
            &&& r.skip(n) == entries.filter(is_not)
            &&& forall|i: int| 0 <= i < n ==> crate::text::file_stem((#[trigger] r[i]).path) == Some(
                "puzzle"@,
            )
            &&& forall|i: int|
                n <= i < r.len() ==> crate::text::file_stem((#[trigger] r[i]).path) != Some(
                    "puzzle"@,
                )
        }),
{
    let is = |e: EntryView| e.is_puzzle();
    let is_not = |e: EntryView| !e.is_puzzle();
    let a = entries.filter(is);
    let b = entries.filter(is_not);
    let n = a.len() as int;
    let r = puzzle_first(entries);
    assert(r == a + b);
    assert(r.take(n) =~= a);
    assert(r.skip(n) =~= b);
    assert forall|i: int| 0 <= i < n implies crate::text::file_stem((#[trigger] r[i]).path) == Some(
        "puzzle"@,
    ) by {
        entries.lemma_filter_pred(is, i);
        assert(r[i] == a[i]);
        assert(is(a[i]));
    }
    assert forall|i: int| n <= i < r.len() implies crate::text::file_stem((#[trigger] r[i]).path)
        != Some("puzzle"@) by {
        entries.lemma_filter_pred(is_not, i - n);
        assert(r[i] == b[i - n]);
        assert(is_not(b[i - n]));
    }
}

} // verus!
