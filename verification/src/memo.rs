//! Memos: a path and the tags found in the file's metadata line. This module
//! holds the grammar of that line, the extraction of tags from a text and the
//! test of a memo's tags against a request.

use crate::encoding::{decode_text, decoded_text, shift_jis_decoded, MAX_DECODE_LEN};
use crate::text::{
    char_seqs, chars_of, contains_chars, copy_range, find_char_from, first_index_where,
    is_substring, lemma_filter_holds, lemma_filter_keeps_all, lemma_filter_map_step,
    lemma_filter_step, lemma_first_index_where, lemma_first_index_where_unique, lines_of,
    split_chars, split_on, string_of, without_trailing_cr,
};
use vstd::prelude::*;
use vstd::string::StringExecFns;
use vstd::utf8::valid_utf8;

verus! {

/// One note file: its path and its tags, in the order in which they were
/// written. A tag may occur more than once.
#[derive(Debug)]
pub struct Memo {
    path: String,
    tags: Vec<String>,
}

/// What a `Memo` stands for.
pub struct MemoView {
    pub path: Seq<char>,
    pub tags: Seq<Seq<char>>,
}

impl View for Memo {
    type V = MemoView;

    closed spec fn view(&self) -> MemoView {
        MemoView { path: self.path@, tags: self.tags.deep_view() }
    }
}

impl Clone for Memo {
    fn clone(&self) -> (copy: Self)
        ensures
            copy@ == self@,
    {
        let mut tags: Vec<String> = Vec::new();
        let mut i: usize = 0;
        while i < self.tags.len()
            invariant
                i <= self.tags.len(),
                tags.deep_view() == self.tags.deep_view().take(i as int),
            decreases self.tags.len() - i,
        {
            let ghost before = tags.deep_view();
            let tag = self.tags[i].clone();
            assert(tag@ == self.tags@[i as int]@);
            tags.push(tag);
            assert(tags.deep_view() =~= before.push(tag@));
            assert(tags.deep_view() =~= self.tags.deep_view().take(i + 1));
            i += 1;
        }
        assert(tags.deep_view() =~= self.tags.deep_view());
        Memo { path: self.path.clone(), tags }
    }
}

impl Memo {
    /// A memo of the given path and tags.
    pub fn new(path: String, tags: Vec<String>) -> (memo: Self)
        ensures
            memo@.path == path@,
            memo@.tags == tags.deep_view(),
    {
        Memo { path: path, tags: tags }
    }

    /// The tags, in the order in which they were written.
    pub fn get_tags(&self) -> (tags: &Vec<String>)
        ensures
            tags.deep_view() == self@.tags,
    {
        &self.tags
    }

    /// The path.
    pub fn get_path(&self) -> (path: &String)
        ensures
            path@ == self@.path,
    {
        &self.path
    }
}

/// The views of a sequence of memos.
pub open spec fn memo_views(memos: Seq<Memo>) -> Seq<MemoView> {
    Seq::new(memos.len(), |i: int| memos[i]@)
}

/// A copy of each memo, in the same order.
pub fn clone_memos(memos: &Vec<Memo>) -> (copies: Vec<Memo>)
    ensures
        memo_views(copies@) == memo_views(memos@),
{
    let mut copies: Vec<Memo> = Vec::new();
    let mut i: usize = 0;
    while i < memos.len()
        invariant
            i <= memos.len(),
            memo_views(copies@) == memo_views(memos@).take(i as int),
        decreases memos.len() - i,
    {
        let ghost before = memo_views(copies@);
        let memo = memos[i].clone();
        copies.push(memo);
        assert(memo_views(copies@) =~= before.push(memo@));
        assert(memo_views(copies@) =~= memo_views(memos@).take(i + 1));
        i += 1;
    }
    assert(memo_views(memos@).take(memos.len() as int) =~= memo_views(memos@));
    copies
}

/// Where the memos lie and which program opens one.
#[derive(Debug)]
pub struct Setting {
    path_memo: Vec<String>,
    app_using_openmemo: String,
}

/// What a `Setting` stands for.
pub struct SettingView {
    pub path_memo: Seq<Seq<char>>,
    pub app_using_openmemo: Seq<char>,
}

impl View for Setting {
    type V = SettingView;

    closed spec fn view(&self) -> SettingView {
        SettingView {
            path_memo: self.path_memo.deep_view(),
            app_using_openmemo: self.app_using_openmemo@,
        }
    }
}

impl Setting {
    /// A setting of the given directories and opener.
    pub fn new(path_memo: Vec<String>, app_using_openmemo: String) -> (setting: Self)
        ensures
            setting@.path_memo == path_memo.deep_view(),
            setting@.app_using_openmemo == app_using_openmemo@,
    {
        Setting { path_memo, app_using_openmemo }
    }

    /// The directories that hold memos, in the order in which they are
    /// configured.
    pub fn get_memo_path(&self) -> (dirs: &Vec<String>)
        ensures
            dirs.deep_view() == self@.path_memo,
    {
        &self.path_memo
    }

    /// The name of the program that opens a memo.
    pub fn get_app_using_openmemo(&self) -> (opener: &String)
        ensures
            opener@ == self@.app_using_openmemo,
    {
        &self.app_using_openmemo
    }
}

/// A line carries tags when the keyword `tags` stands anywhere in it.
pub open spec fn is_tag_line(line: Seq<char>) -> bool {
    is_substring("tags"@, line)
}

/// The predicate that holds of every character but the space.
pub open spec fn not_space() -> spec_fn(char) -> bool {
    |c: char| c != ' '
}

/// `line` with every space character taken out.
pub open spec fn without_spaces(line: Seq<char>) -> Seq<char> {
    line.filter(not_space())
}

/// The predicate that holds of a fragment that is a tag: one in which the
/// label `tags:` does not stand.
pub open spec fn is_tag_fragment() -> spec_fn(Seq<char>) -> bool {
    |fragment: Seq<char>| !is_substring("tags:"@, fragment)
}

/// The tags of a tag line: the line without its spaces, split at every `#`,
/// less the fragments that hold the label `tags:`.
pub open spec fn line_tags(line: Seq<char>) -> Seq<Seq<char>> {
    split_on(without_spaces(line), '#').filter(is_tag_fragment())
}

/// The tags of a line, where it is a tag line.
pub open spec fn tags_by_line(line: Seq<char>) -> Option<Seq<Seq<char>>> {
    if is_tag_line(line) {
        Some(line_tags(line))
    } else {
        None
    }
}

/// The predicate that holds of a tag line.
pub open spec fn tag_line() -> spec_fn(Seq<char>) -> bool {
    |line: Seq<char>| is_tag_line(line)
}

/// The tags of a text: those of its first tag line. Lines before it are passed
/// over and lines after it are not read. A text without a tag line has none.
pub open spec fn text_tags(text: Seq<char>) -> Option<Seq<Seq<char>>> {
    let lines = lines_of(text);
    let first = first_index_where(lines, tag_line());
    if 0 <= first < lines.len() {
        Some(line_tags(lines[first]))
    } else {
        None
    }
}

/// No line of the text is a tag line.
pub open spec fn has_no_tag_line(text: Seq<char>) -> bool {
    forall|i: int| 0 <= i < lines_of(text).len() ==> !is_tag_line(#[trigger] lines_of(text)[i])
}

/// A text has no tags exactly when none of its lines holds the keyword.
pub proof fn lemma_text_without_tag_line(text: Seq<char>)
    ensures
        text_tags(text) is None <==> has_no_tag_line(text),
{
    let lines = lines_of(text);
    lemma_first_index_where(lines, tag_line());
    let first = first_index_where(lines, tag_line());
    if first < lines.len() {
        assert(is_tag_line(lines[first]));
    } else {
        assert forall|i: int| 0 <= i < lines.len() implies !is_tag_line(#[trigger] lines[i]) by {
            assert(!tag_line()(lines[i]));
        }
    }
}

/// `chars` with every space character taken out.
fn strip_spaces(chars: &[char]) -> (kept: Vec<char>)
    ensures
        kept@ == without_spaces(chars@),
{
    let mut kept: Vec<char> = Vec::new();
    let mut i: usize = 0;
    proof {
        reveal(Seq::filter);
    }
    while i < chars.len()
        invariant
            i <= chars.len(),
            kept@ == chars@.take(i as int).filter(not_space()),
        decreases chars.len() - i,
    {
        proof {
            lemma_filter_step(chars@, not_space(), i as int);
        }
        if chars[i] != ' ' {
            kept.push(chars[i]);
        }
        i += 1;
    }
    assert(chars@.take(chars.len() as int) =~= chars@);
    kept
}

/// The tags of a tag line, given as characters.
fn parse_tag_line(line: &[char]) -> (tags: Vec<String>)
    ensures
        tags.deep_view() == line_tags(line@),
{
    let label = chars_of("tags:");
    let stripped = strip_spaces(line);
    let fragments = split_chars(stripped.as_slice(), '#');
    let ghost all = char_seqs(fragments@);
    let mut tags: Vec<String> = Vec::new();
    let mut i: usize = 0;
    proof {
        reveal(Seq::filter);
    }
    while i < fragments.len()
        invariant
            i <= fragments.len(),
            label@ == "tags:"@,
            all == char_seqs(fragments@),
            tags.deep_view() == all.take(i as int).filter(is_tag_fragment()),
        decreases fragments.len() - i,
    {
        proof {
            lemma_filter_step(all, is_tag_fragment(), i as int);
        }
        if !contains_chars(fragments[i].as_slice(), label.as_slice()) {
            let ghost before = tags.deep_view();
            tags.push(string_of(fragments[i].as_slice()));
            assert(tags.deep_view() =~= before.push(all[i as int]));
        }
        i += 1;
    }
    assert(all.take(fragments.len() as int) =~= all);
    tags
}

/// The tags of one line: `None` where the keyword `tags` does not stand in it,
/// else its tags, of which there may be none.
pub fn get_tags_by_line(line: String) -> (res: Option<Vec<String>>)
    ensures
        res is Some <==> is_tag_line(line@),
        res matches Some(tags) ==> tags.deep_view() == line_tags(line@),
{
    let chars = chars_of(line.as_str());
    let keyword = chars_of("tags");
    if contains_chars(chars.as_slice(), keyword.as_slice()) {
        Some(parse_tag_line(chars.as_slice()))
    } else {
        None
    }
}

/// The tags of a text: those of its first tag line, or `None` where no line
/// is one.
pub fn extract_tags(text: &str) -> (res: Option<Vec<String>>)
    ensures
        res is Some <==> text_tags(text@) is Some,
        res matches Some(tags) ==> Some(tags.deep_view()) == text_tags(text@),
        res is None <==> has_no_tag_line(text@),
{
    proof {
        lemma_text_without_tag_line(text@);
    }
    let chars = chars_of(text);
    let keyword = chars_of("tags");
    let ghost lines = lines_of(text@);
    let ghost mut done: int = 0;
    let mut start: usize = 0;
    proof {
        assert(chars@.skip(0) =~= chars@);
        assert(lines.skip(0) =~= lines);
    }
    while start < chars.len()
        invariant
            start <= chars.len(),
            chars@ == text@,
            keyword@ == "tags"@,
            lines == lines_of(text@),
            0 <= done <= lines.len(),
            lines.skip(done) == lines_of(chars@.skip(start as int)),
            forall|j: int| 0 <= j < done ==> !is_tag_line(lines[j]),
        decreases chars.len() - start,
    {
        let ghost rest = chars@.skip(start as int);
        let k = find_char_from(chars.as_slice(), '\n', start);
        let mut end: usize = k;
        if k < chars.len() && start < k && chars[k - 1] == '\r' {
            end = k - 1;
        }
        let line = copy_range(chars.as_slice(), start, end);
        proof {
            assert(rest.take(k - start) =~= chars@.subrange(start as int, k as int));
            if k < chars.len() {
                assert(line@ =~= without_trailing_cr(rest.take(k - start)));
                assert(rest.skip(k - start + 1) =~= chars@.skip(k + 1));
                assert(lines_of(rest) == seq![line@] + lines_of(chars@.skip(k + 1)));
            } else {
                assert(line@ =~= rest);
                assert(lines_of(rest) == seq![line@]);
            }
            assert(lines.skip(done)[0] == line@);
            assert(lines[done] == line@);
        }
        if contains_chars(line.as_slice(), keyword.as_slice()) {
            let tags = parse_tag_line(line.as_slice());
            proof {
                lemma_first_index_where_unique(lines, tag_line(), done);
            }
            return Some(tags);
        }
        if k >= chars.len() {
            proof {
                assert(lines.skip(done).len() == 1);
                lemma_first_index_where_unique(lines, tag_line(), done + 1);
            }
            return None;
        }
        proof {
            assert(lines.skip(done + 1) =~= lines.skip(done).skip(1));
            assert((seq![line@] + lines_of(chars@.skip(k + 1))).skip(1) =~= lines_of(
                chars@.skip(k + 1),
            ));
            done = done + 1;
        }
        start = k + 1;
    }
    proof {
        assert(chars@.skip(start as int).len() == 0);
        assert(lines.skip(done).len() == 0);
        lemma_first_index_where_unique(lines, tag_line(), done);
    }
    None
}

/// A requested tag that lifts the filter: one in which `all` stands.
pub open spec fn is_bypass_tag(tag: Seq<char>) -> bool {
    is_substring("all"@, tag)
}

/// Some requested tag lifts the filter.
pub open spec fn has_bypass_tag(requested: Seq<Seq<char>>) -> bool {
    exists|i: int| 0 <= i < requested.len() && is_bypass_tag(#[trigger] requested[i])
}

/// Some tag of the memo stands in the requested tag.
pub open spec fn tag_is_covered(requested_tag: Seq<char>, memo_tags: Seq<Seq<char>>) -> bool {
    exists|j: int| 0 <= j < memo_tags.len() && is_substring(#[trigger] memo_tags[j], requested_tag)
}

/// Every requested tag holds some tag of the memo.
pub open spec fn all_tags_covered(requested: Seq<Seq<char>>, memo_tags: Seq<Seq<char>>) -> bool {
    forall|i: int| 0 <= i < requested.len() ==> tag_is_covered(#[trigger] requested[i], memo_tags)
}

/// A memo with the tags `memo_tags` answers the request: the request is
/// lifted by one of its tags, or every requested tag holds a tag of the memo.
pub open spec fn tags_match(requested: Seq<Seq<char>>, memo_tags: Seq<Seq<char>>) -> bool {
    has_bypass_tag(requested) || all_tags_covered(requested, memo_tags)
}

/// The characters of each string of `strings`.
fn chars_of_each(strings: &Vec<String>) -> (all: Vec<Vec<char>>)
    ensures
        char_seqs(all@) == strings.deep_view(),
{
    let mut all: Vec<Vec<char>> = Vec::new();
    let mut i: usize = 0;
    while i < strings.len()
        invariant
            i <= strings.len(),
            char_seqs(all@) == strings.deep_view().take(i as int),
        decreases strings.len() - i,
    {
        let ghost before = char_seqs(all@);
        let chars = chars_of(strings[i].as_str());
        all.push(chars);
        assert(char_seqs(all@) =~= before.push(chars@));
        assert(char_seqs(all@) =~= strings.deep_view().take(i + 1));
        i += 1;
    }
    assert(strings.deep_view().take(strings.len() as int) =~= strings.deep_view());
    all
}

/// Whether some tag of `requested` lifts the filter.
fn any_bypass(requested: &Vec<Vec<char>>) -> (b: bool)
    ensures
        b == has_bypass_tag(char_seqs(requested@)),
{
    let word = chars_of("all");
    let mut i: usize = 0;
    while i < requested.len()
        invariant
            i <= requested.len(),
            word@ == "all"@,
            forall|k: int| 0 <= k < i ==> !is_bypass_tag(#[trigger] char_seqs(requested@)[k]),
        decreases requested.len() - i,
    {
        if contains_chars(requested[i].as_slice(), word.as_slice()) {
            assert(is_bypass_tag(char_seqs(requested@)[i as int]));
            return true;
        }
        i += 1;
    }
    false
}

/// Whether some tag of `memo_tags` stands in `requested_tag`.
fn covered(requested_tag: &Vec<char>, memo_tags: &Vec<Vec<char>>) -> (b: bool)
    ensures
        b == tag_is_covered(requested_tag@, char_seqs(memo_tags@)),
{
    let mut j: usize = 0;
    while j < memo_tags.len()
        invariant
            j <= memo_tags.len(),
            forall|k: int|
                0 <= k < j ==> !is_substring(#[trigger] char_seqs(memo_tags@)[k], requested_tag@),
        decreases memo_tags.len() - j,
    {
        if contains_chars(requested_tag.as_slice(), memo_tags[j].as_slice()) {
            assert(is_substring(char_seqs(memo_tags@)[j as int], requested_tag@));
            return true;
        }
        j += 1;
    }
    false
}

/// Whether every tag of `requested` holds some tag of `memo_tags`.
fn all_covered(requested: &Vec<Vec<char>>, memo_tags: &Vec<Vec<char>>) -> (b: bool)
    ensures
        b == all_tags_covered(char_seqs(requested@), char_seqs(memo_tags@)),
{
    let mut i: usize = 0;
    while i < requested.len()
        invariant
            i <= requested.len(),
            forall|k: int|
                0 <= k < i ==> tag_is_covered(
                    #[trigger] char_seqs(requested@)[k],
                    char_seqs(memo_tags@),
                ),
        decreases requested.len() - i,
    {
        if !covered(&requested[i], memo_tags) {
            assert(!tag_is_covered(char_seqs(requested@)[i as int], char_seqs(memo_tags@)));
            return false;
        }
        i += 1;
    }
    true
}

/// Whether a memo with the tags `tags_memo` answers the request `tags`.
///
/// A requested tag in which `all` stands lifts the filter: every memo then
/// answers. Otherwise each requested tag must hold some tag of the memo as a
/// contiguous part; it is the requested tag that holds the memo's tag, not the
/// other way round. An empty request is answered by every memo, and a memo
/// without tags answers only a request that is empty or lifted.
pub fn is_include_these_tags(tags: &Vec<String>, tags_memo: &Vec<String>) -> (b: bool)
    ensures
        b == tags_match(tags.deep_view(), tags_memo.deep_view()),
        has_bypass_tag(tags.deep_view()) ==> b,
        tags@.len() == 0 ==> b,
{
    let requested = chars_of_each(tags);
    let memo_tags = chars_of_each(tags_memo);
    any_bypass(&requested) || all_covered(&requested, &memo_tags)
}

/// The predicate that holds of a memo whose tags answer `requested`.
pub open spec fn answers(requested: Seq<Seq<char>>) -> spec_fn(MemoView) -> bool {
    |memo: MemoView| tags_match(requested, memo.tags)
}

/// The memos of `catalog` that answer `requested`, in their order.
pub open spec fn tag_filtered(catalog: Seq<MemoView>, requested: Seq<Seq<char>>) -> Seq<MemoView> {
    catalog.filter(answers(requested))
}

/// The memos of `catalog` whose tags answer `requested`, in their order.
pub fn filter_by_tags(catalog: &Vec<Memo>, requested: &Vec<String>) -> (kept: Vec<Memo>)
    ensures
        memo_views(kept@) == tag_filtered(memo_views(catalog@), requested.deep_view()),
{
    let wanted = chars_of_each(requested);
    let lifted = any_bypass(&wanted);
    let ghost all = memo_views(catalog@);
    let mut kept: Vec<Memo> = Vec::new();
    let mut i: usize = 0;
    proof {
        reveal(Seq::filter);
        assert(memo_views(kept@) =~= all.take(0).filter(answers(requested.deep_view())));
    }
    while i < catalog.len()
        invariant
            i <= catalog.len(),
            all == memo_views(catalog@),
            char_seqs(wanted@) == requested.deep_view(),
            lifted == has_bypass_tag(requested.deep_view()),
            memo_views(kept@) == all.take(i as int).filter(answers(requested.deep_view())),
        decreases catalog.len() - i,
    {
        proof {
            lemma_filter_step(all, answers(requested.deep_view()), i as int);
        }
        let memo_tags = chars_of_each(catalog[i].get_tags());
        if lifted || all_covered(&wanted, &memo_tags) {
            let ghost before = memo_views(kept@);
            let memo = catalog[i].clone();
            kept.push(memo);
            assert(memo_views(kept@) =~= before.push(all[i as int]));
        }
        i += 1;
    }
    assert(all.take(catalog.len() as int) =~= all);
    kept
}

/// A request without tags is answered by every memo.
pub proof fn lemma_empty_request_matches(memo_tags: Seq<Seq<char>>)
    ensures
        tags_match(Seq::empty(), memo_tags),
{
}

/// A request with a tag in which `all` stands is answered by every memo.
pub proof fn lemma_bypass_matches(requested: Seq<Seq<char>>, memo_tags: Seq<Seq<char>>)
    requires
        has_bypass_tag(requested),
    ensures
        tags_match(requested, memo_tags),
{
}

/// Filtering twice by one predicate keeps what filtering once keeps.
pub proof fn lemma_filter_twice<A>(s: Seq<A>, pred: spec_fn(A) -> bool)
    ensures
        s.filter(pred).filter(pred) == s.filter(pred),
{
    lemma_filter_holds(s, pred);
    lemma_filter_keeps_all(s.filter(pred), pred);
}

/// The tag filter, applied to its own result with the same request, changes
/// nothing.
pub proof fn lemma_tag_filter_idempotent(catalog: Seq<MemoView>, requested: Seq<Seq<char>>)
    ensures
        tag_filtered(tag_filtered(catalog, requested), requested) == tag_filtered(
            catalog,
            requested,
        ),
{
    lemma_filter_twice(catalog, answers(requested));
}

/// One child of a directory as the scanner is given it: its path, whether it
/// is a regular file, the extension of its name, and its bytes. The bytes are
/// `None` where the file could not be read, and are not looked at where the
/// child is no memo file.
#[derive(Debug)]
pub struct FileEntry {
    pub path: String,
    pub is_file: bool,
    pub extension: Option<String>,
    pub content: Option<Vec<u8>>,
}

/// What a `FileEntry` stands for.
pub struct FileEntryView {
    pub path: Seq<char>,
    pub is_file: bool,
    pub extension: Option<Seq<char>>,
    pub content: Option<Seq<u8>>,
}

impl View for FileEntry {
    type V = FileEntryView;

    open spec fn view(&self) -> FileEntryView {
        FileEntryView {
            path: self.path@,
            is_file: self.is_file,
            extension: match self.extension {
                Some(extension) => Some(extension@),
                None => None,
            },
            content: match self.content {
                Some(bytes) => Some(bytes@),
                None => None,
            },
        }
    }
}

/// The views of a sequence of entries.
pub open spec fn entry_views(entries: Seq<FileEntry>) -> Seq<FileEntryView> {
    Seq::new(entries.len(), |i: int| entries[i]@)
}

/// One configured directory as the scanner is given it: its path and its
/// immediate children in the order in which the directory lists them. The
/// children are `None` where the directory could not be listed.
#[derive(Debug)]
pub struct DirectoryListing {
    pub path: String,
    pub entries: Option<Vec<FileEntry>>,
}

/// What a `DirectoryListing` stands for.
pub struct DirectoryListingView {
    pub path: Seq<char>,
    pub entries: Option<Seq<FileEntryView>>,
}

impl View for DirectoryListing {
    type V = DirectoryListingView;

    open spec fn view(&self) -> DirectoryListingView {
        DirectoryListingView {
            path: self.path@,
            entries: match self.entries {
                Some(entries) => Some(entry_views(entries@)),
                None => None,
            },
        }
    }
}

/// The views of a sequence of listings.
pub open spec fn listing_views(listings: Seq<DirectoryListing>) -> Seq<DirectoryListingView> {
    Seq::new(listings.len(), |i: int| listings[i]@)
}

/// Why a directory gave no memos.
#[derive(Debug)]
pub enum ScanError {
    /// The directory could not be listed.
    DirectoryError { directory: String },
    /// A memo file of the directory could not be read.
    IoError { directory: String, file: String },
}

/// What a `ScanError` stands for.
pub enum ScanErrorView {
    DirectoryError { directory: Seq<char> },
    IoError { directory: Seq<char>, file: Seq<char> },
}

impl View for ScanError {
    type V = ScanErrorView;

    open spec fn view(&self) -> ScanErrorView {
        match self {
            ScanError::DirectoryError { directory } => ScanErrorView::DirectoryError {
                directory: directory@,
            },
            ScanError::IoError { directory, file } => ScanErrorView::IoError {
                directory: directory@,
                file: file@,
            },
        }
    }
}

/// A child is a memo file when it is a regular file whose extension is
/// exactly `md`.
pub open spec fn is_memo_file(entry: FileEntryView) -> bool {
    entry.is_file && entry.extension == Some("md"@)
}

/// The predicate that holds of a memo file that could not be read.
pub open spec fn unreadable() -> spec_fn(FileEntryView) -> bool {
    |entry: FileEntryView| is_memo_file(entry) && entry.content is None
}

/// The character that stands for `c` in a stored path: a forward slash for a
/// backslash, `c` itself otherwise.
pub open spec fn slash_for_backslash() -> spec_fn(char) -> char {
    |c: char| if c == '\\' { '/' } else { c }
}

/// A path with every separator written as a forward slash.
pub open spec fn normalized(path: Seq<char>) -> Seq<char> {
    path.map_values(slash_for_backslash())
}

/// The memo that a file of the given path and text is, if its text has a tag
/// line.
pub open spec fn memo_of_text(path: Seq<char>, text: Seq<char>) -> Option<MemoView> {
    match text_tags(text) {
        Some(tags) => Some(MemoView { path: normalized(path), tags: tags }),
        None => None,
    }
}

/// The memo that a file of the given path and bytes is, if any.
pub open spec fn memo_of_file(path: Seq<char>, bytes: Seq<u8>) -> Option<MemoView> {
    memo_of_text(path, decoded_text(bytes))
}

/// The function from a child of a directory to the memo that it is, if any.
pub open spec fn memo_of_entry() -> spec_fn(FileEntryView) -> Option<MemoView> {
    |entry: FileEntryView|
        if is_memo_file(entry) && entry.content is Some {
            memo_of_file(entry.path, entry.content->0)
        } else {
            None
        }
}

/// What the scan of one directory gives: the memos of its memo files, in the
/// order of the listing, or the error of the first memo file that could not be
/// read, or that of the directory itself.
pub open spec fn scanned(listing: DirectoryListingView) -> Result<Seq<MemoView>, ScanErrorView> {
    match listing.entries {
        None => Err(ScanErrorView::DirectoryError { directory: listing.path }),
        Some(entries) => {
            let bad = first_index_where(entries, unreadable());
            if 0 <= bad < entries.len() {
                Err(ScanErrorView::IoError { directory: listing.path, file: entries[bad].path })
            } else {
                Ok(entries.filter_map(memo_of_entry()))
            }
        },
    }
}

/// What the scan of several directories gives: the memos of each, one
/// directory after the other, or the error of the first directory that has
/// one.
pub open spec fn catalog_of(listings: Seq<DirectoryListingView>) -> Result<
    Seq<MemoView>,
    ScanErrorView,
>
    decreases listings.len(),
{
    if listings.len() == 0 {
        Ok(Seq::empty())
    } else {
        match catalog_of(listings.drop_last()) {
            Err(error) => Err(error),
            Ok(memos) => match scanned(listings.last()) {
                Err(error) => Err(error),
                Ok(more) => Ok(memos + more),
            },
        }
    }
}

/// The bytes of every memo file of the listing are short enough to decode.
pub open spec fn decodable(listing: DirectoryListingView) -> bool {
    listing.entries matches Some(entries) ==> forall|i: int|
        0 <= i < entries.len() && is_memo_file(#[trigger] entries[i]) ==> (
        entries[i].content matches Some(bytes) ==> bytes.len() <= MAX_DECODE_LEN)
}

/// The path with every backslash replaced by a forward slash.
pub fn normalize_path(path: &str) -> (stored: String)
    ensures
        stored@ == normalized(path@),
{
    let chars = chars_of(path);
    let mut stored = String::new();
    let mut i: usize = 0;
    while i < chars.len()
        invariant
            i <= chars.len(),
            chars@ == path@,
            stored@ == normalized(path@).take(i as int),
        decreases chars.len() - i,
    {
        let c = chars[i];
        if c == '\\' {
            stored.push('/');
        } else {
            stored.push(c);
        }
        assert(stored@ =~= normalized(path@).take(i + 1));
        i += 1;
    }
    assert(normalized(path@).take(chars.len() as int) =~= normalized(path@));
    stored
}

/// The memo that a file of the given path and text is: its normalized path
/// and the tags of its first tag line, or `None` where the text has no tag
/// line.
pub fn create_memo_from_text(path: &str, text: &str) -> (res: Option<Memo>)
    ensures
        res is Some <==> memo_of_text(path@, text@) is Some,
        res matches Some(memo) ==> Some(memo@) == memo_of_text(path@, text@),
        res is None <==> has_no_tag_line(text@),
{
    match extract_tags(text) {
        Some(tags) => Some(Memo::new(normalize_path(path), tags)),
        None => None,
    }
}

/// The memo that a file of the given path and bytes is. The bytes are read
/// as text with the encoding fallback; a file whose text has no tag line is
/// no memo.
pub fn create_memo_from_file(path: &str, bytes: &[u8]) -> (res: Option<Memo>)
    requires
        bytes@.len() <= MAX_DECODE_LEN,
    ensures
        res is Some <==> memo_of_file(path@, bytes@) is Some,
        res matches Some(memo) ==> Some(memo@) == memo_of_file(path@, bytes@),
        res is None <==> has_no_tag_line(decoded_text(bytes@)),
        !valid_utf8(bytes@) ==> (res is Some <==> memo_of_text(
            path@,
            shift_jis_decoded(bytes@),
        ) is Some),
        !valid_utf8(bytes@) ==> (res matches Some(memo) ==> Some(memo@) == memo_of_text(
            path@,
            shift_jis_decoded(bytes@),
        )),
{
    let text = decode_text(bytes);
    create_memo_from_text(path, text.as_str())
}

/// Whether a child of a directory is a memo file: a regular file with the
/// extension `md`, in exactly this spelling.
pub fn is_eligible(entry: &FileEntry) -> (b: bool)
    ensures
        b == is_memo_file(entry@),
{
    if !entry.is_file {
        return false;
    }
    match &entry.extension {
        Some(extension) => {
            let md = String::from_str("md");
            *extension == md
        },
        None => false,
    }
}

/// Scans one directory: reads each memo file among its immediate children,
/// in the order of the listing, and gives the memo of each that has a tag
/// line. A file without a tag line is left out without an error. A memo file
/// that could not be read ends the scan with an `IoError`, and a directory
/// that could not be listed gives a `DirectoryError`; both name the directory.
pub fn scan(listing: &DirectoryListing) -> (res: Result<Vec<Memo>, ScanError>)
    requires
        decodable(listing@),
    ensures
        match res {
            Ok(memos) => scanned(listing@) == Ok::<Seq<MemoView>, ScanErrorView>(
                memo_views(memos@),
            ),
            Err(error) => scanned(listing@) == Err::<Seq<MemoView>, ScanErrorView>(error@),
        },
{
    match &listing.entries {
        None => Err(ScanError::DirectoryError { directory: listing.path.clone() }),
        Some(entries) => {
            let ghost all = entry_views(entries@);
            let mut memos: Vec<Memo> = Vec::new();
            let mut i: usize = 0;
            assert(memo_views(memos@) =~= all.take(0).filter_map(memo_of_entry()));
            while i < entries.len()
                invariant
                    i <= entries.len(),
                    all == entry_views(entries@),
                    listing@.entries == Some(all),
                    decodable(listing@),
                    forall|j: int| 0 <= j < i ==> !unreadable()(all[j]),
                    memo_views(memos@) == all.take(i as int).filter_map(memo_of_entry()),
                decreases entries.len() - i,
            {
                let entry = &entries[i];
                proof {
                    lemma_filter_map_step(all, memo_of_entry(), i as int);
                    assert(all[i as int] == entry@);
                }
                if is_eligible(entry) {
                    match &entry.content {
                        None => {
                            proof {
                                lemma_first_index_where_unique(all, unreadable(), i as int);
                            }
                            return Err(
                                ScanError::IoError {
                                    directory: listing.path.clone(),
                                    file: entry.path.clone(),
                                },
                            );
                        },
                        Some(bytes) => {
                            assert(bytes@.len() <= MAX_DECODE_LEN);
                            match create_memo_from_file(entry.path.as_str(), bytes.as_slice()) {
                                Some(memo) => {
                                    let ghost before = memo_views(memos@);
                                    memos.push(memo);
                                    assert(memo_views(memos@) =~= before.push(memo@));
                                },
                                None => {},
                            }
                        },
                    }
                }
                i += 1;
            }
            proof {
                lemma_first_index_where_unique(all, unreadable(), all.len() as int);
                assert(all.take(entries.len() as int) =~= all);
            }
            Ok(memos)
        },
    }
}

/// Once a directory has failed, the scan of any longer list of directories
/// fails with the same error.
pub proof fn lemma_catalog_error_stays(listings: Seq<DirectoryListingView>, k: int)
    requires
        0 <= k <= listings.len(),
        catalog_of(listings.take(k)) is Err,
    ensures
        catalog_of(listings) == catalog_of(listings.take(k)),
    decreases listings.len(),
{
    if k == listings.len() {
        assert(listings.take(k) =~= listings);
    } else {
        assert(listings.drop_last().take(k) =~= listings.take(k));
        lemma_catalog_error_stays(listings.drop_last(), k);
    }
}

/// Builds the catalog: the memos of each directory, one directory after the
/// other in the order given, with no memo left out where a path occurs twice.
/// The first directory whose scan fails makes the whole build fail with its
/// error, and no part of a catalog is returned.
pub fn create_memo_list(listings: &Vec<DirectoryListing>) -> (res: Result<Vec<Memo>, ScanError>)
    requires
        forall|i: int| 0 <= i < listings@.len() ==> decodable(#[trigger] listings@[i]@),
    ensures
        match res {
            Ok(memos) => catalog_of(listing_views(listings@)) == Ok::<
                Seq<MemoView>,
                ScanErrorView,
            >(memo_views(memos@)),
            Err(error) => catalog_of(listing_views(listings@)) == Err::<
                Seq<MemoView>,
                ScanErrorView,
            >(error@),
        },
{
    let ghost all = listing_views(listings@);
    let mut catalog: Vec<Memo> = Vec::new();
    let mut i: usize = 0;
    assert(memo_views(catalog@) =~= Seq::empty());
    while i < listings.len()
        invariant
            i <= listings.len(),
            all == listing_views(listings@),
            forall|j: int| 0 <= j < listings@.len() ==> decodable(#[trigger] listings@[j]@),
            catalog_of(all.take(i as int)) == Ok::<Seq<MemoView>, ScanErrorView>(
                memo_views(catalog@),
            ),
        decreases listings.len() - i,
    {
        proof {
            assert(all.take(i + 1).drop_last() =~= all.take(i as int));
            assert(all.take(i + 1).last() == listings@[i as int]@);
        }
        match scan(&listings[i]) {
            Err(error) => {
                proof {
                    lemma_catalog_error_stays(all, i + 1);
                }
                return Err(error);
            },
            Ok(mut memos) => {
                let ghost before = memo_views(catalog@);
                let ghost more = memo_views(memos@);
                catalog.append(&mut memos);
                assert(memo_views(catalog@) =~= before + more);
            },
        }
        i += 1;
    }
    assert(all.take(listings.len() as int) =~= all);
    Ok(catalog)
}

/// The tags as a tag line announces them: for each tag a `#`, the tag and a
/// space.
pub open spec fn tag_marks(tags: Seq<Seq<char>>) -> Seq<char>
    decreases tags.len(),
{
    if tags.len() == 0 {
        Seq::empty()
    } else {
        tag_marks(tags.drop_last()) + seq!['#'] + tags.last() + seq![' ']
    }
}

/// The text with which a new memo of the given tags begins: a comment of
/// three lines, the second of which is the tag line.
pub open spec fn memo_template(tags: Seq<Seq<char>>) -> Seq<char> {
    " <!---\n tags: "@ + tag_marks(tags) + "\n --->\n"@
}

/// The text with which a new memo of the given tags begins.
pub fn new_memo_contents(tags: &Vec<String>) -> (contents: String)
    ensures
        contents@ == memo_template(tags.deep_view()),
{
    let mut contents = String::from_str(" <!---\n tags: ");
    let ghost all = tags.deep_view();
    let mut i: usize = 0;
    assert(contents@ =~= " <!---\n tags: "@ + tag_marks(all.take(0)));
    while i < tags.len()
        invariant
            i <= tags.len(),
            all == tags.deep_view(),
            contents@ == " <!---\n tags: "@ + tag_marks(all.take(i as int)),
        decreases tags.len() - i,
    {
        proof {
            assert(all.take(i + 1).drop_last() =~= all.take(i as int));
            assert(all.take(i + 1).last() == tags@[i as int]@);
        }
        contents.push('#');
        contents.append(tags[i].as_str());
        contents.push(' ');
        assert(contents@ =~= " <!---\n tags: "@ + tag_marks(all.take(i + 1)));
        i += 1;
    }
    assert(all.take(tags.len() as int) =~= all);
    contents.append("\n --->\n");
    contents
}

/// The width to which a memo's path is filled up with spaces where it is
/// shown in a list.
pub const PATH_COLUMN_WIDTH: usize = 50;

/// The white space characters of Unicode.
pub open spec fn is_white_space(c: char) -> bool {
    let code = c as u32;
    ||| 0x09 <= code <= 0x0d
    ||| code == 0x20
    ||| code == 0x85
    ||| code == 0xa0
    ||| code == 0x1680
    ||| 0x2000 <= code <= 0x200a
    ||| code == 0x2028
    ||| code == 0x2029
    ||| code == 0x202f
    ||| code == 0x205f
    ||| code == 0x3000
}

/// `s` without the white space at its start.
pub open spec fn without_leading_white_space(s: Seq<char>) -> Seq<char>
    decreases s.len(),
{
    if s.len() > 0 && is_white_space(s.first()) {
        without_leading_white_space(s.drop_first())
    } else {
        s
    }
}

/// `s` without the white space at its end.
pub open spec fn without_trailing_white_space(s: Seq<char>) -> Seq<char>
    decreases s.len(),
{
    if s.len() > 0 && is_white_space(s.last()) {
        without_trailing_white_space(s.drop_last())
    } else {
        s
    }
}

/// `s` without the white space at its two ends.
pub open spec fn trimmed(s: Seq<char>) -> Seq<char> {
    without_trailing_white_space(without_leading_white_space(s))
}

/// `s`, followed by as many spaces as it falls short of `width` characters.
pub open spec fn padded(s: Seq<char>, width: nat) -> Seq<char> {
    if s.len() < width {
        s + Seq::new((width - s.len()) as nat, |i: int| ' ')
    } else {
        s
    }
}

/// The tags as a list shows them: each trimmed and followed by a comma and a
/// space.
pub open spec fn tag_list(tags: Seq<Seq<char>>) -> Seq<char>
    decreases tags.len(),
{
    if tags.len() == 0 {
        Seq::empty()
    } else {
        tag_list(tags.drop_last()) + trimmed(tags.last()) + ", "@
    }
}

/// The line that shows a memo in a list: its path in a column of fifty
/// characters, a bar, and its tags.
pub open spec fn memo_line(memo: MemoView) -> Seq<char> {
    padded(memo.path, PATH_COLUMN_WIDTH as nat) + " | tags="@ + tag_list(memo.tags)
}

/// Whether `c` is a white space character.
pub fn is_white_space_char(c: char) -> (b: bool)
    ensures
        b == is_white_space(c),
{
    let code: u32 = c as u32;
    (0x09 <= code && code <= 0x0d) || code == 0x20 || code == 0x85 || code == 0xa0 || code
        == 0x1680 || (0x2000 <= code && code <= 0x200a) || code == 0x2028 || code == 0x2029
        || code == 0x202f || code == 0x205f || code == 0x3000
}

/// The characters of `chars` without the white space at the two ends.
pub fn trim_chars(chars: &[char]) -> (kept: Vec<char>)
    ensures
        kept@ == trimmed(chars@),
{
    let mut start: usize = 0;
    assert(chars@.skip(0) =~= chars@);
    while start < chars.len() && is_white_space_char(chars[start])
        invariant
            start <= chars.len(),
            without_leading_white_space(chars@) == without_leading_white_space(
                chars@.skip(start as int),
            ),
        decreases chars.len() - start,
    {
        assert(chars@.skip(start as int).drop_first() =~= chars@.skip(start + 1));
        start += 1;
    }
    let ghost rest = chars@.skip(start as int);
    assert(without_leading_white_space(chars@) == rest);
    let mut end: usize = chars.len();
    assert(rest.take(rest.len() as int) =~= rest);
    while start < end && is_white_space_char(chars[end - 1])
        invariant
            start <= end <= chars.len(),
            rest == chars@.skip(start as int),
            without_trailing_white_space(rest) == without_trailing_white_space(
                rest.take(end - start),
            ),
        decreases end - start,
    {
        assert(rest.take(end - start).drop_last() =~= rest.take(end - start - 1));
        end -= 1;
    }
    assert(rest.take(end - start) =~= chars@.subrange(start as int, end as int));
    copy_range(chars, start, end)
}

impl Memo {
    /// The line that shows the memo in a list.
    pub fn to_line(&self) -> (line: String)
        ensures
            line@ == memo_line(self@),
    {
        let path = chars_of(self.path.as_str());
        let mut line = self.path.clone();
        let mut width: usize = path.len();
        let ghost gap = Seq::new((PATH_COLUMN_WIDTH - path.len()) as nat, |i: int| ' ');
        assert(line@ =~= self.path@ + gap.take(0));
        while width < PATH_COLUMN_WIDTH
            invariant
                path@ == self.path@,
                path.len() <= width,
                path.len() < PATH_COLUMN_WIDTH ==> width <= PATH_COLUMN_WIDTH,
                path.len() < PATH_COLUMN_WIDTH ==> gap == Seq::new(
                    (PATH_COLUMN_WIDTH - path.len()) as nat,
                    |i: int| ' ',
                ),
                path.len() < PATH_COLUMN_WIDTH ==> line@ == self.path@ + gap.take(
                    width - path.len(),
                ),
                path.len() >= PATH_COLUMN_WIDTH ==> line@ == self.path@,
            decreases PATH_COLUMN_WIDTH - width,
        {
            line.push(' ');
            assert(line@ =~= self.path@ + gap.take(width + 1 - path.len()));
            width += 1;
        }
        proof {
            if path.len() < PATH_COLUMN_WIDTH {
                assert(gap.take(width - path.len()) =~= gap);
            }
        }
        assert(line@ == padded(self.path@, PATH_COLUMN_WIDTH as nat));
        line.append(" | tags=");
        let ghost head = padded(self.path@, PATH_COLUMN_WIDTH as nat) + " | tags="@;
        let ghost all = self.tags.deep_view();
        let mut i: usize = 0;
        assert(line@ =~= head + tag_list(all.take(0)));
        while i < self.tags.len()
            invariant
                i <= self.tags.len(),
                all == self.tags.deep_view(),
                line@ == head + tag_list(all.take(i as int)),
            decreases self.tags.len() - i,
        {
            proof {
                assert(all.take(i + 1).drop_last() =~= all.take(i as int));
                assert(all.take(i + 1).last() == self.tags@[i as int]@);
            }
            let tag = chars_of(self.tags[i].as_str());
            let shown = string_of(trim_chars(tag.as_slice()).as_slice());
            line.append(shown.as_str());
            line.append(", ");
            assert(line@ =~= head + tag_list(all.take(i + 1)));
            i += 1;
        }
        assert(all.take(self.tags.len() as int) =~= all);
        line
    }
}

} // verus!
