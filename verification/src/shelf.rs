//! The shelves: where each kind of writing lies, how files are named, and which
//! notes a shelf shows.
use vstd::prelude::*;

use crate::order;
use crate::order::Ranked;
use crate::path;
use crate::path::NotePath;
use crate::text;

verus! {

/// How many shelves there are.
pub const CATEGORY_COUNT: usize = 9;

pub const PROJECTS_CATEGORY_INDEX: usize = 5;

pub const SECRET_CATEGORY_INDEX: usize = 6;

pub const ARCHIVE_CATEGORY_INDEX: usize = 7;

pub const TRASH_CATEGORY_INDEX: usize = 8;

/// How many versions of a note are kept.
pub const VERSION_LIMIT: usize = 20;

/// The name of a shelf.
pub open spec fn category_title(index: int) -> Seq<char> {
    if index == 0 {
        "Notes"@
    } else if index == 1 {
        "Drafts"@
    } else if index == 2 {
        "Journal"@
    } else if index == 3 {
        "Poems"@
    } else if index == 4 {
        "Ideas"@
    } else if index == 5 {
        "Projects"@
    } else if index == 6 {
        "Secret Thoughts"@
    } else if index == 7 {
        "Archive"@
    } else {
        "Trash"@
    }
}

/// The names of the shelves are of ASCII alone.
pub proof fn lemma_titles_are_ascii(index: int)
    ensures
        text::ascii(category_title(index)),
{
    reveal_strlit("Notes");
    reveal_strlit("Drafts");
    reveal_strlit("Journal");
    reveal_strlit("Poems");
    reveal_strlit("Ideas");
    reveal_strlit("Projects");
    reveal_strlit("Secret Thoughts");
    reveal_strlit("Archive");
    reveal_strlit("Trash");
}

/// The name of a shelf.
pub fn category_name(index: usize) -> (name: &'static str)
    ensures
        name@ == category_title(index as int),
{
    match index {
        0 => "Notes",
        1 => "Drafts",
        2 => "Journal",
        3 => "Poems",
        4 => "Ideas",
        5 => "Projects",
        6 => "Secret Thoughts",
        7 => "Archive",
        _ => "Trash",
    }
}

/// The folder of a shelf: named after it, but for the trash, which lies among
/// the files that the desk keeps for itself. An index past the last is the last.
pub open spec fn category_folder(directory: path::PathView, index: int) -> path::PathView {
    if index < TRASH_CATEGORY_INDEX {
        directory.joined(category_title(index))
    } else {
        directory.joined(".quietwrite"@).joined("Trash"@)
    }
}

/// The folder of a shelf.
pub fn category_directory(directory: &NotePath, index: usize) -> (folder: NotePath)
    ensures
        folder@ == category_folder(directory@, index as int),
{
    if index < TRASH_CATEGORY_INDEX {
        directory.join(category_name(index))
    } else {
        directory.join(".quietwrite").join("Trash")
    }
}

/// The folder that new notes go to: that of the first shelf.
pub fn notes_directory(directory: &NotePath) -> (folder: NotePath)
    ensures
        folder@ == category_folder(directory@, 0),
{
    category_directory(directory, 0)
}

/// The name of the file of a note.
pub fn note_file_name(name: &str) -> (file: String)
    ensures
        file@ == name@ + ".md"@,
{
    let mut file: String = text::owned(name);
    file.append(".md");
    file
}

/// Whether a path lies on the encrypted shelf.
pub open spec fn secret(directory: path::PathView, place: path::PathView) -> bool {
    place.below(category_folder(directory, SECRET_CATEGORY_INDEX as int))
}

/// Whether a path lies on the encrypted shelf.
pub fn is_secret_path(directory: &NotePath, place: &NotePath) -> (yes: bool)
    ensures
        yes == secret(directory@, place@),
{
    place.starts_with(&category_directory(directory, SECRET_CATEGORY_INDEX))
}

/// A text without the `.md` endings it has, one or many.
pub open spec fn without_md(s: Seq<char>) -> Seq<char>
    decreases s.len(),
{
    if s.len() >= 3 && s.skip(s.len() - 3) == seq!['.', 'm', 'd'] {
        without_md(s.take(s.len() - 3))
    } else {
        s
    }
}

/// The characters that no file name may hold.
pub open spec fn unsafe_char(c: char) -> bool {
    c == '/' || c == '\\' || c == ':' || c == '\0'
}

/// A text without the characters that no file name may hold.
pub open spec fn kept_chars(s: Seq<char>) -> Seq<char> {
    s.filter(|c: char| !unsafe_char(c))
}

/// The file name, without extension, that an input asks for.
pub open spec fn safe_name(input: Seq<char>) -> Seq<char> {
    text::trimmed(kept_chars(without_md(text::trimmed(input))))
}

/// Makes a file name out of what was typed: no white space at the ends, no
/// `.md`, and none of `/`, `\`, `:` and zero.
pub fn safe_filename(input: &str) -> (name: String)
    ensures
        name@ == safe_name(input@),
{
    let trimmed: Vec<char> = text::trim(text::chars_of(input).as_slice());
    let mut end: usize = trimmed.len();
    assert(trimmed@.take(trimmed@.len() as int) == trimmed@);
    while end >= 3 && trimmed[end - 3] == '.' && trimmed[end - 2] == 'm' && trimmed[end - 1] == 'd'
        invariant
            end <= trimmed@.len(),
            without_md(trimmed@.take(end as int)) == without_md(trimmed@),
        decreases end,
    {
        proof {
            let shown = trimmed@.take(end as int);
            assert(shown.skip(end - 3) == seq!['.', 'm', 'd']);
            assert(shown.take(end - 3) == trimmed@.take(end - 3));
        }
        end -= 3;
    }
    proof {
        let shown = trimmed@.take(end as int);
        if end >= 3 {
            assert(shown.skip(end - 3)[0] == trimmed@[end - 3]);
            assert(shown.skip(end - 3)[1] == trimmed@[end - 2]);
            assert(shown.skip(end - 3)[2] == trimmed@[end - 1]);
        }
        assert(without_md(shown) == shown);
    }
    let ghost base = trimmed@.take(end as int);
    let mut kept: Vec<char> = Vec::new();
    let mut i: usize = 0;
    assert(kept@ == kept_chars(base.take(0)));
    while i < end
        invariant
            i <= end <= trimmed@.len(),
            base == trimmed@.take(end as int),
            kept@ == kept_chars(base.take(i as int)),
        decreases end - i,
    {
        let c: char = trimmed[i];
        proof {
            reveal(Seq::filter);
            assert(base.take(i + 1).drop_last() == base.take(i as int));
            assert(base.take(i + 1).last() == c);
        }
        if !(c == '/' || c == '\\' || c == ':' || c == '\0') {
            kept.push(c);
        }
        i += 1;
    }
    assert(base.take(end as int) == base);
    text::string_of(text::trim(kept.as_slice()).as_slice())
}

proof fn lemma_kept_chars_are_safe(s: Seq<char>)
    ensures
        forall|i: int| 0 <= i < kept_chars(s).len() ==> !unsafe_char(#[trigger] kept_chars(s)[i]),
    decreases s.len(),
{
    reveal(Seq::filter);
    if s.len() > 0 {
        lemma_kept_chars_are_safe(s.drop_last());
    }
}

proof fn lemma_trimmed_is_a_part(s: Seq<char>)
    ensures
        forall|i: int| 0 <= i < text::trimmed(s).len() ==> s.contains(#[trigger] text::trimmed(s)[i]),
{
    lemma_trim_bounds(s, 0);
    let start = text::skip_space(s, 0);
    lemma_trim_end_bounds(s, start, s.len() as int);
    let t = text::trimmed(s);
    assert forall|i: int| 0 <= i < t.len() implies s.contains(#[trigger] t[i]) by {
        assert(t[i] == s[start + i]);
    }
}

proof fn lemma_trim_bounds(s: Seq<char>, at: int)
    requires
        0 <= at <= s.len(),
    ensures
        at <= text::skip_space(s, at) <= s.len(),
    decreases s.len() - at,
{
    if at < s.len() && text::space(s[at]) {
        lemma_trim_bounds(s, at + 1);
    }
}

proof fn lemma_trim_end_bounds(s: Seq<char>, start: int, end: int)
    requires
        0 <= start <= end <= s.len(),
    ensures
        start <= text::drop_space(s, start, end) <= end,
    decreases end - start,
{
    if start < end && text::space(s[end - 1]) {
        lemma_trim_end_bounds(s, start, end - 1);
    }
}

/// A file name made out of an input holds nothing that would lead out of its
/// folder.
pub proof fn law_safe_names_are_single_names(input: Seq<char>, i: int)
    requires
        0 <= i < safe_name(input).len(),
    ensures
        safe_name(input)[i] != '/',
        safe_name(input)[i] != '\\',
        safe_name(input)[i] != ':',
        safe_name(input)[i] != '\0',
{
    let base = without_md(text::trimmed(input));
    lemma_kept_chars_are_safe(base);
    lemma_trimmed_is_a_part(kept_chars(base));
    assert(kept_chars(base).contains(safe_name(input)[i]));
}

/// A path as a name: what separates its parts, and colons, become underscores.
pub open spec fn flattened(s: Seq<char>) -> Seq<char> {
    s.map_values(
        |c: char|
            if c == '/' || c == '\\' || c == ':' {
                '_'
            } else {
                c
            },
    )
}

/// The name under which the versions of a note are kept.
pub open spec fn history_name(directory: path::PathView, place: path::PathView) -> Seq<char> {
    if place.below(directory) {
        flattened(path::slashed(place.parts.skip(directory.parts.len() as int)))
    } else {
        flattened(place.shown())
    }
}

fn flatten(text: &str) -> (name: String)
    ensures
        name@ == flattened(text@),
{
    let chars: Vec<char> = text::chars_of(text);
    let mut name = String::new();
    let mut i: usize = 0;
    assert(name@ == flattened(text@.take(0)));
    while i < chars.len()
        invariant
            i <= chars@.len(),
            chars@ == text@,
            name@ == flattened(text@.take(i as int)),
        decreases chars@.len() - i,
    {
        let c: char = chars[i];
        if c == '/' || c == '\\' || c == ':' {
            name.push('_');
        } else {
            name.push(c);
        }
        i += 1;
        assert(name@ == flattened(text@.take(i as int)));
    }
    assert(text@.take(text@.len() as int) == text@);
    name
}

/// The name under which the versions of a note are kept.
pub fn history_key(directory: &NotePath, place: &NotePath) -> (name: String)
    ensures
        name@ == history_name(directory@, place@),
{
    if place.starts_with(directory) {
        flatten(path::join_with_slashes(&place.parts, directory.parts.len()).as_str())
    } else {
        flatten(place.show().as_str())
    }
}

/// The folder that holds the versions of a note.
pub open spec fn history_place(directory: path::PathView, place: path::PathView) -> path::PathView {
    directory.joined(".quietwrite"@).joined("history"@).joined(history_name(directory, place))
}

/// The folder that holds the versions of a note.
pub fn history_folder(directory: &NotePath, place: &NotePath) -> (folder: NotePath)
    ensures
        folder@ == history_place(directory@, place@),
{
    directory.join(".quietwrite").join("history").join(history_key(directory, place).as_str())
}

/// The name of the version that is kept at a moment, in nanoseconds.
pub fn version_name(stamp: u128) -> (name: String)
    ensures
        name@ == text::decimal(stamp as nat) + ".md"@,
{
    let mut name: String = text::decimal_text(stamp);
    name.append(".md");
    name
}

/// The oldest versions, by name, past the number that is kept.
pub fn expired_versions(names: Vec<String>) -> (expired: Vec<String>)
    ensures
        expired@ == order::sorted(names@).take(
            if names@.len() > VERSION_LIMIT {
                names@.len() - VERSION_LIMIT
            } else {
                0
            },
        ),
        names@.len() <= 20 ==> expired@.len() == 0,
        names@.len() > 20 ==> expired@.len() == names@.len() - 20,
{
    let count: usize = if names.len() > VERSION_LIMIT {
        names.len() - VERSION_LIMIT
    } else {
        0
    };
    proof {
        order::law_sorting_orders_and_keeps(names@);
    }
    let mut sorted: Vec<String> = order::sort(names);
    sorted.truncate(count);
    sorted
}

/// No more than `VERSION_LIMIT` versions remain, and those that go are the
/// oldest by name.
pub proof fn law_history_is_bounded(names: Seq<String>)
    ensures
        ({
            let count = if names.len() > VERSION_LIMIT {
                names.len() - VERSION_LIMIT
            } else {
                0
            };
            let all = order::sorted(names);
            &&& names.len() - all.take(count).len() <= VERSION_LIMIT
            &&& forall|i: int, j: int|
                0 <= i < count <= j < all.len() ==> text::text_at_most(all[i]@, all[j]@, 0)
        }),
{
    order::law_sorting_orders_and_keeps(names);
    let all = order::sorted(names);
    assert forall|i: int, j: int| 0 <= i <= j < all.len() implies text::text_at_most(
        all[i]@,
        all[j]@,
        0,
    ) by {
        assert(all[i].at_most(all[j]));
    }
}

/// The newest version: the last by name.
pub fn latest_version(names: Vec<String>) -> (latest: Option<String>)
    ensures
        match latest {
            Some(name) => names@.len() > 0 && name@ == order::sorted(names@).last()@ && (forall|
                i: int,
            |
                0 <= i < names@.len() ==> text::text_at_most(
                    (#[trigger] names@[i])@,
                    name@,
                    0,
                )),
            None => names@.len() == 0,
        },
{
    proof {
        order::law_sorting_orders_and_keeps(names@);
        assert forall|i: int| 0 <= i < names@.len() implies text::text_at_most(
            (#[trigger] names@[i])@,
            order::sorted(names@).last()@,
            0,
        ) by {
            law_the_last_version_is_the_newest(names@, i);
        }
    }
    let sorted: Vec<String> = order::sort(names);
    if sorted.len() == 0 {
        None
    } else {
        Some(text::owned(sorted[sorted.len() - 1].as_str()))
    }
}

/// The name that a file gets in a folder, on each attempt to find a free one:
/// first its own, then with a number from two on.
pub open spec fn numbered(name: Seq<char>, attempt: nat) -> Seq<char> {
    if attempt == 0 {
        name
    } else {
        let stem = if name.len() == 0 || name == ".."@ {
            "note"@
        } else {
            path::stem_of(name)
        };
        let extension = match path::extension_of(name) {
            Some(given) => given,
            None => "md"@,
        };
        stem + "-"@ + text::decimal(attempt + 1) + "."@ + extension
    }
}

/// The place for a file in a folder, on an attempt to find one that is free.
pub fn unique_destination(folder: &NotePath, name: &str, attempt: u64) -> (place: NotePath)
    ensures
        place@ == folder@.joined(numbered(name@, attempt as nat)),
{
    if attempt == 0 {
        return folder.join(name);
    }
    let chars: Vec<char> = text::chars_of(name);
    let mut candidate: String = if chars.len() == 0 || text::same(name, "..") {
        text::owned("note")
    } else {
        path::file_stem(name)
    };
    candidate.append("-");
    candidate.append(text::decimal_text(attempt as u128 + 1).as_str());
    candidate.append(".");
    match path::file_extension(name) {
        Some(extension) => {
            candidate.append(extension.as_str());
        },
        None => {
            candidate.append("md");
        },
    }
    folder.join(candidate.as_str())
}

/// The name of a new note, on each attempt to find a free one.
pub open spec fn new_note_name(seconds: nat, attempt: nat) -> Seq<char> {
    if attempt == 0 {
        "note-"@ + text::decimal(seconds) + ".md"@
    } else {
        "note-"@ + text::decimal(seconds) + "-"@ + text::decimal(attempt + 1) + ".md"@
    }
}

/// The place for a new note in a folder, on an attempt to find one that is free.
pub fn new_note_path(folder: &NotePath, seconds: u64, attempt: u64) -> (place: NotePath)
    ensures
        place@ == folder@.joined(new_note_name(seconds as nat, attempt as nat)),
{
    let mut name: String = text::owned("note-");
    name.append(text::decimal_text(seconds as u128).as_str());
    if attempt > 0 {
        name.append("-");
        name.append(text::decimal_text(attempt as u128 + 1).as_str());
    }
    name.append(".md");
    folder.join(name.as_str())
}

proof fn lemma_middle(a: Seq<char>, x: Seq<char>, y: Seq<char>, z: Seq<char>)
    requires
        a + x + z == a + y + z,
    ensures
        x == y,
{
    let left = a + x + z;
    assert(left.len() == a.len() + x.len() + z.len());
    assert((a + y + z).len() == a.len() + y.len() + z.len());
    assert(x == left.subrange(a.len() as int, (a.len() + x.len()) as int));
    assert(y == left.subrange(a.len() as int, (a.len() + y.len()) as int));
}

proof fn lemma_decimal_injective(a: nat, b: nat)
    requires
        text::decimal(a) == text::decimal(b),
    ensures
        a == b,
{
    text::lemma_decimal(a);
    text::lemma_decimal(b);
}

/// No two attempts past the first try the same name, so that a search for a free
/// one goes on to new names until it finds it.
pub proof fn law_attempts_differ(name: Seq<char>, seconds: nat, a: nat, b: nat)
    requires
        0 < a,
        0 < b,
        a != b,
    ensures
        numbered(name, a) != numbered(name, b),
        new_note_name(seconds, a) != new_note_name(seconds, b),
{
    let x = text::decimal(a + 1);
    let y = text::decimal(b + 1);
    if numbered(name, a) == numbered(name, b) {
        let stem = if name.len() == 0 || name == ".."@ {
            "note"@
        } else {
            path::stem_of(name)
        };
        let extension = match path::extension_of(name) {
            Some(given) => given,
            None => "md"@,
        };
        let head = stem + "-"@;
        let tail = "."@ + extension;
        assert(numbered(name, a) == head + x + tail);
        assert(numbered(name, b) == head + y + tail);
        lemma_middle(head, x, y, tail);
        lemma_decimal_injective(a + 1, b + 1);
    }
    if new_note_name(seconds, a) == new_note_name(seconds, b) {
        let head = "note-"@ + text::decimal(seconds) + "-"@;
        lemma_middle(head, x, y, ".md"@);
        lemma_decimal_injective(a + 1, b + 1);
    }
}

/// A file or folder that was found, and when it was last changed.
#[derive(Debug)]
pub struct FileEntry {
    pub place: NotePath,
    pub is_file: bool,
    pub modified: i128,
}

impl FileEntry {
    pub fn copy(&self) -> (copy: FileEntry)
        ensures
            copy.view() == self.view(),
    {
        FileEntry { place: self.place.copy(), is_file: self.is_file, modified: self.modified }
    }
}

/// A file that was found, as a mathematical value.
#[verifier::ext_equal]
pub struct FileView {
    pub place: path::PathView,
    pub is_file: bool,
    pub modified: int,
}

impl View for FileEntry {
    type V = FileView;

    open spec fn view(&self) -> FileView {
        FileView { place: self.place@, is_file: self.is_file, modified: self.modified as int }
    }
}

pub open spec fn file_views(files: Seq<FileEntry>) -> Seq<FileView> {
    files.map_values(|file: FileEntry| file@)
}

impl Ranked for FileEntry {
    /// The newer one comes first.
    open spec fn at_most(self, other: FileEntry) -> bool {
        self.modified >= other.modified
    }

    proof fn total(a: FileEntry, b: FileEntry) {
    }

    proof fn transitive(a: FileEntry, b: FileEntry, c: FileEntry) {
    }

    fn ranks_at_most(&self, other: &FileEntry) -> (yes: bool) {
        self.modified >= other.modified
    }
}

/// Whether something found is a Markdown file in a folder: directly in it, or
/// anywhere below.
pub open spec fn note_in(folder: path::PathView, recursive: bool, file: FileView) -> bool {
    &&& file.is_file
    &&& file.place.markdown()
    &&& file.place.below(folder)
    &&& file.place.parts.len() > folder.parts.len()
    &&& recursive || file.place.parts.len() == folder.parts.len() + 1
}

/// The Markdown files of a folder, as mathematical values.
pub open spec fn note_views(
    folder: path::PathView,
    recursive: bool,
    files: Seq<FileView>,
) -> Seq<FileView> {
    files.filter(|file: FileView| note_in(folder, recursive, file))
}

/// Picks the Markdown files of a folder out of what was found.
pub fn collect_markdown(folder: &NotePath, recursive: bool, files: &Vec<FileEntry>) -> (notes: Vec<
    FileEntry,
>)
    ensures
        file_views(notes@) == note_views(folder@, recursive, file_views(files@)),
{
    let ghost shown = file_views(files@);
    let mut notes: Vec<FileEntry> = Vec::new();
    let mut i: usize = 0;
    proof {
        reveal(Seq::filter);
        assert(file_views(notes@) == note_views(folder@, recursive, shown.take(0)));
    }
    while i < files.len()
        invariant
            i <= files@.len(),
            shown == file_views(files@),
            file_views(notes@) == note_views(folder@, recursive, shown.take(i as int)),
        decreases files@.len() - i,
    {
        let file: &FileEntry = &files[i];
        let ghost before = notes@;
        proof {
            reveal(Seq::filter);
            assert(shown.take(i + 1).drop_last() == shown.take(i as int));
            assert(shown.take(i + 1).last() == file@);
        }
        if file.is_file && file.place.is_markdown() && file.place.starts_with(folder)
            && file.place.parts.len() > folder.parts.len() && (recursive || file.place.parts.len()
            - folder.parts.len() == 1) {
            let copy: FileEntry = file.copy();
            notes.push(copy);
            assert(file_views(notes@) == file_views(before).push(file@));
        }
        i += 1;
    }
    assert(shown.take(shown.len() as int) == shown);
    notes
}

/// The newer of two files comes first.
pub open spec fn newer(a: FileView, b: FileView) -> bool {
    a.modified >= b.modified
}

/// The places of files.
pub open spec fn file_places(files: Seq<FileView>) -> Seq<path::PathView> {
    files.map_values(|file: FileView| file.place)
}

/// The notes of a shelf among what was found, the newest first. The first shelf
/// also shows the Markdown files that lie in the writing directory itself; the
/// projects are searched to any depth.
pub open spec fn shelf_notes(
    directory: path::PathView,
    index: int,
    files: Seq<FileView>,
) -> Seq<FileView> {
    let folder = category_folder(directory, index);
    let own = note_views(folder, index == PROJECTS_CATEGORY_INDEX, files);
    let all = if index == 0 {
        note_views(directory, false, files) + own
    } else {
        own
    };
    order::sorted_by(all, |a: FileView, b: FileView| newer(a, b))
}

/// The places of sorted files, taken out one by one.
fn places_of(files: Vec<FileEntry>) -> (places: Vec<NotePath>)
    ensures
        path::path_views(places@) == file_places(file_views(files@)),
{
    let mut places: Vec<NotePath> = Vec::new();
    let ghost shown = file_places(file_views(files@));
    let mut i: usize = 0;
    assert(path::path_views(places@) == shown.take(0));
    while i < files.len()
        invariant
            i <= files@.len(),
            shown == file_places(file_views(files@)),
            path::path_views(places@) == shown.take(i as int),
        decreases files@.len() - i,
    {
        let ghost before = places@;
        let place: NotePath = files[i].place.copy();
        places.push(place);
        proof {
            assert(path::path_views(places@) == path::path_views(before).push(place@));
            assert(shown[i as int] == place@);
            assert(shown.take(i + 1) == shown.take(i as int).push(place@));
        }
        i += 1;
    }
    assert(shown.take(shown.len() as int) == shown);
    places
}

/// The notes of a shelf, the newest first.
pub fn notes_for_category(directory: &NotePath, index: usize, files: &Vec<FileEntry>) -> (notes:
    Vec<NotePath>)
    ensures
        path::path_views(notes@) == file_places(
            shelf_notes(directory@, index as int, file_views(files@)),
        ),
{
    let folder: NotePath = category_directory(directory, index);
    let mut found: Vec<FileEntry> = Vec::new();
    if index == 0 {
        found = collect_markdown(directory, false, files);
    }
    let ghost root_notes = found@;
    let mut own: Vec<FileEntry> = collect_markdown(&folder, index == PROJECTS_CATEGORY_INDEX, files);
    let ghost own_notes = own@;
    found.append(&mut own);
    proof {
        assert(file_views(found@) == file_views(root_notes) + file_views(own_notes));
        if index != 0 {
            assert(file_views(root_notes) + file_views(own_notes) == file_views(own_notes));
        }
        order::lemma_sorted_views(
            found@,
            |file: FileEntry| file@,
            |a: FileView, b: FileView| newer(a, b),
        );
    }
    places_of(order::sort(found))
}

/// The last, among the first `count` files, of those that were changed latest.
pub open spec fn latest_of(files: Seq<FileView>, count: int) -> int
    decreases count,
{
    if count <= 1 {
        0
    } else {
        let before = latest_of(files, count - 1);
        if files[count - 1].modified >= files[before].modified {
            count - 1
        } else {
            before
        }
    }
}

/// Whether something found lies directly in a folder and is named as Markdown.
pub open spec fn markdown_entry(folder: path::PathView, file: FileView) -> bool {
    &&& file.place.markdown()
    &&& file.place.below(folder)
    &&& file.place.parts.len() == folder.parts.len() + 1
}

/// What lies directly in a folder and is named as Markdown.
pub open spec fn markdown_entries(folder: path::PathView, files: Seq<FileView>) -> Seq<FileView> {
    files.filter(|file: FileView| markdown_entry(folder, file))
}

/// The Markdown file of the writing directory that was changed latest, the last
/// of them where several were.
pub fn latest_note(directory: &NotePath, files: &Vec<FileEntry>) -> (latest: Option<NotePath>)
    ensures
        ({
            let found = markdown_entries(directory@, file_views(files@));
            match latest {
                Some(place) => found.len() > 0 && place@ == found[latest_of(
                    found,
                    found.len() as int,
                )].place,
                None => found.len() == 0,
            }
        }),
{
    let ghost shown = file_views(files@);
    let ghost mut found: Seq<FileView> = Seq::empty();
    let mut best: Option<usize> = None;
    let mut i: usize = 0;
    proof {
        reveal(Seq::filter);
        assert(found == markdown_entries(directory@, shown.take(0)));
    }
    while i < files.len()
        invariant
            i <= files@.len(),
            shown == file_views(files@),
            found == markdown_entries(directory@, shown.take(i as int)),
            match best {
                Some(b) => b < i && found.len() > 0 && shown[b as int] == found[latest_of(
                    found,
                    found.len() as int,
                )] && 0 <= latest_of(found, found.len() as int) < found.len(),
                None => found.len() == 0,
            },
        decreases files@.len() - i,
    {
        let file: &FileEntry = &files[i];
        let ghost before = found;
        proof {
            reveal(Seq::filter);
            assert(shown.take(i + 1).drop_last() == shown.take(i as int));
            assert(shown.take(i + 1).last() == file@);
            found = markdown_entries(directory@, shown.take(i + 1));
        }
        if file.place.is_markdown() && file.place.starts_with(directory) && file.place.parts.len()
            > directory.parts.len() && file.place.parts.len() - directory.parts.len() == 1 {
            proof {
                assert(found == before.push(file@));
                lemma_latest_of_prefix(before, found, before.len() as int);
            }
            match best {
                Some(b) => {
                    if file.modified >= files[b].modified {
                        best = Some(i);
                    }
                },
                None => {
                    best = Some(i);
                },
            }
        }
        i += 1;
    }
    assert(shown.take(shown.len() as int) == shown);
    match best {
        Some(b) => Some(files[b].place.copy()),
        None => None,
    }
}

proof fn lemma_latest_of_prefix(a: Seq<FileView>, b: Seq<FileView>, count: int)
    requires
        0 <= count <= a.len() <= b.len(),
        forall|k: int| 0 <= k < count ==> a[k] == b[k],
    ensures
        latest_of(a, count) == latest_of(b, count),
        count > 0 ==> 0 <= latest_of(a, count) < count,
    decreases count,
{
    if count > 1 {
        lemma_latest_of_prefix(a, b, count - 1);
    }
}

/// The chapters of a book: every Markdown file below its folder, in the order of
/// their paths.
pub fn book_chapters(project: &NotePath, files: &Vec<FileEntry>) -> (chapters: Vec<NotePath>)
    ensures
        path::path_views(chapters@) == order::sorted_by(
            file_places(note_views(project@, true, file_views(files@))),
            |a: path::PathView, b: path::PathView| a.at_most(b),
        ),
        path::path_views(chapters@) == chapters_of(project@, file_views(files@)),
{
    let places: Vec<NotePath> = places_of(collect_markdown(project, true, files));
    proof {
        order::lemma_sorted_views(
            places@,
            |place: NotePath| place@,
            |a: path::PathView, b: path::PathView| a.at_most(b),
        );
    }
    order::sort(places)
}

/// The shelves by name, the folder of each, and where the trash lies.
pub proof fn law_the_shelves_have_their_folders(directory: path::PathView, a: int, b: int)
    requires
        0 <= a < 9,
        0 <= b < 9,
    ensures
        CATEGORY_COUNT == 9,
        category_title(0) == "Notes"@,
        category_title(1) == "Drafts"@,
        category_title(2) == "Journal"@,
        category_title(3) == "Poems"@,
        category_title(4) == "Ideas"@,
        category_title(PROJECTS_CATEGORY_INDEX as int) == "Projects"@,
        category_title(SECRET_CATEGORY_INDEX as int) == "Secret Thoughts"@,
        category_title(ARCHIVE_CATEGORY_INDEX as int) == "Archive"@,
        category_title(TRASH_CATEGORY_INDEX as int) == "Trash"@,
        a < 8 ==> category_folder(directory, a) == directory.joined(category_title(a)),
        category_folder(directory, 8) == directory.joined(".quietwrite"@).joined("Trash"@),
        a != b ==> category_title(a) != category_title(b) && category_folder(directory, a)
            != category_folder(directory, b),
{
    reveal_strlit("Notes");
    reveal_strlit("Drafts");
    reveal_strlit("Journal");
    reveal_strlit("Poems");
    reveal_strlit("Ideas");
    reveal_strlit("Projects");
    reveal_strlit("Secret Thoughts");
    reveal_strlit("Archive");
    reveal_strlit("Trash");
    reveal_strlit(".quietwrite");
    assert("Poems"@[1] == 'o' && "Projects"@[1] == 'r');
    assert("Notes"@[0] == 'N' && "Drafts"@[0] == 'D' && "Journal"@[0] == 'J' && "Poems"@[0] == 'P'
        && "Ideas"@[0] == 'I' && "Projects"@[0] == 'P' && "Secret Thoughts"@[0] == 'S'
        && "Archive"@[0] == 'A' && "Trash"@[0] == 'T');
    assert(category_title(a) != category_title(b) || a == b);
    if a < 8 && b < 8 && a != b {
        assert(category_folder(directory, a).parts.last() == category_title(a));
        assert(category_folder(directory, b).parts.last() == category_title(b));
    }
    if (a == 8) != (b == 8) {
        assert(category_folder(directory, 8).parts.len() == directory.parts.len() + 2);
        let other = if a == 8 {
            b
        } else {
            a
        };
        assert(category_folder(directory, other).parts.len() == directory.parts.len() + 1);
    }
}

proof fn lemma_nothing_removed(s: Seq<char>)
    requires
        forall|i: int| 0 <= i < s.len() ==> !unsafe_char(#[trigger] s[i]),
    ensures
        kept_chars(s) == s,
    decreases s.len(),
{
    reveal(Seq::filter);
    if s.len() > 0 {
        let less = s.drop_last();
        assert forall|i: int| 0 <= i < less.len() implies !unsafe_char(#[trigger] less[i]) by {
            assert(!unsafe_char(s[i]));
        }
        lemma_nothing_removed(less);
        assert(!unsafe_char(s[s.len() - 1]));
        assert(less.push(s.last()) == s);
    }
}

proof fn lemma_endings(name: Seq<char>)
    ensures
        without_md(name + seq!['.', 'm', 'd']) == without_md(name),
        name.len() < 3 || name.skip(name.len() - 3) != seq!['.', 'm', 'd'] ==> without_md(name)
            == name,
{
    let file = name + seq!['.', 'm', 'd'];
    assert(file.skip(file.len() - 3) == seq!['.', 'm', 'd']);
    assert(file.take(file.len() - 3) == name);
}

proof fn lemma_plain_stays(name: Seq<char>)
    requires
        forall|i: int|
            0 <= i < name.len() ==> #[trigger] name[i] != '/' && name[i] != '\\' && name[i] != ':'
                && name[i] != '\0',
    ensures
        kept_chars(name) == name,
{
    assert forall|i: int| 0 <= i < name.len() implies !unsafe_char(#[trigger] name[i]) by {
        assert(name[i] != '/');
    }
    lemma_nothing_removed(name);
}

/// A name that can stand as it is stays as it is: one without separators, white
/// space at its ends and the ending of a note. White space around it and the
/// ending behind it make no difference.
pub proof fn law_safe_names_stay(name: Seq<char>, before: Seq<char>, after: Seq<char>)
    requires
        name.len() > 0,
        !text::space(name[0]),
        !text::space(name.last()),
        name.len() < 3 || name.skip(name.len() - 3) != seq!['.', 'm', 'd'],
        forall|i: int|
            0 <= i < name.len() ==> #[trigger] name[i] != '/' && name[i] != '\\' && name[i] != ':'
                && name[i] != '\0',
        text::blank(before),
        text::blank(after),
    ensures
        safe_name(before + name + after) == name,
        safe_name(before + (name + seq!['.', 'm', 'd']) + after) == name,
{
    lemma_plain_stays(name);
    lemma_endings(name);
    text::lemma_trimmed_line(name);
    assert(text::trimmed(before + name + after) == name) by {
        text::law_trimming_takes_only_the_ends(before, name, after);
    }
    let file = name + seq!['.', 'm', 'd'];
    assert(text::trimmed(before + file + after) == file) by {
        assert(file[0] == name[0] && file.last() == 'd');
        text::law_trimming_takes_only_the_ends(before, file, after);
    }
}

/// Characters that lead out of a folder are left out of a name, and all others
/// stay in their order.
pub proof fn law_only_separators_are_left_out(a: Seq<char>, c: char, b: Seq<char>)
    ensures
        c == '/' || c == '\\' || c == ':' || c == '\0' ==> kept_chars(a + seq![c] + b)
            == kept_chars(a) + kept_chars(b),
        c != '/' && c != '\\' && c != ':' && c != '\0' ==> kept_chars(a + seq![c] + b)
            == kept_chars(a) + seq![c] + kept_chars(b),
    decreases b.len(),
{
    reveal(Seq::filter);
    let whole = a + seq![c] + b;
    if b.len() == 0 {
        assert(whole.drop_last() == a);
        assert(whole.last() == c);
        assert(kept_chars(b) == Seq::<char>::empty());
        assert(kept_chars(a) + Seq::<char>::empty() == kept_chars(a));
        assert(kept_chars(a) + seq![c] + Seq::<char>::empty() == kept_chars(a).push(c));
    } else {
        law_only_separators_are_left_out(a, c, b.drop_last());
        assert(whole.drop_last() == a + seq![c] + b.drop_last());
        assert(whole.last() == b.last());
        let head = if unsafe_char(c) {
            kept_chars(a)
        } else {
            kept_chars(a) + seq![c]
        };
        if !unsafe_char(b.last()) {
            assert((head + kept_chars(b.drop_last())).push(b.last()) == head + kept_chars(
                b.drop_last(),
            ).push(b.last()));
        }
    }
}

/// The versions of a note lie in a folder of their own among the files that the
/// desk keeps for itself, named after the way to the note, with an underscore for
/// every separator and all else as it is.
pub proof fn law_versions_lie_apart(directory: path::PathView, name: Seq<char>, i: int)
    ensures
        history_place(directory, directory.joined(name)) == directory.joined(".quietwrite"@).joined(
            "history"@,
        ).joined(flattened(name)),
        flattened(name).len() == name.len(),
        0 <= i < name.len() ==> flattened(name)[i] == if name[i] == '/' || name[i] == '\\'
            || name[i] == ':' {
            '_'
        } else {
            name[i]
        },
{
    let place = directory.joined(name);
    path::law_what_is_joined_lies_below(directory, directory, name);
    assert(place.parts.skip(directory.parts.len() as int) == seq![name]);
}

proof fn lemma_smaller_number_first(a: Seq<char>, b: Seq<char>) -> (k: int)
    requires
        a.len() == b.len(),
        text::all_digits(a),
        text::all_digits(b),
        text::number(a) < text::number(b),
    ensures
        0 <= k < a.len(),
        a.take(k) == b.take(k),
        a[k] < b[k],
    decreases a.len(),
{
    reveal_with_fuel(text::number, 2);
    assert(a.len() > 0);
    let p = a.drop_last();
    let q = b.drop_last();
    assert(text::is_digit(a[a.len() - 1]) && text::is_digit(b[b.len() - 1]));
    assert forall|i: int| 0 <= i < p.len() implies text::is_digit(#[trigger] p[i]) by {
        assert(text::is_digit(a[i]));
    }
    assert forall|i: int| 0 <= i < q.len() implies text::is_digit(#[trigger] q[i]) by {
        assert(text::is_digit(b[i]));
    }
    if text::number(p) < text::number(q) {
        let k = lemma_smaller_number_first(p, q);
        assert(a.take(k) == p.take(k) && b.take(k) == q.take(k));
        assert(a[k] == p[k] && b[k] == q[k]);
        k
    } else {
        lemma_same_number_same_digits(p, q);
        let k = a.len() - 1;
        assert(a.take(k) == p && b.take(k) == q);
        k
    }
}

proof fn lemma_same_number_same_digits(a: Seq<char>, b: Seq<char>)
    requires
        a.len() == b.len(),
        text::all_digits(a),
        text::all_digits(b),
        text::number(a) >= text::number(b),
        text::number(a) <= text::number(b),
    ensures
        a == b,
    decreases a.len(),
{
    reveal_with_fuel(text::number, 2);
    if a.len() > 0 {
        let p = a.drop_last();
        let q = b.drop_last();
        assert(text::is_digit(a[a.len() - 1]) && text::is_digit(b[b.len() - 1]));
        assert forall|i: int| 0 <= i < p.len() implies text::is_digit(#[trigger] p[i]) by {
            assert(text::is_digit(a[i]));
        }
        assert forall|i: int| 0 <= i < q.len() implies text::is_digit(#[trigger] q[i]) by {
            assert(text::is_digit(b[i]));
        }
        lemma_same_number_same_digits(p, q);
        assert(a == p.push(a.last()) && b == q.push(b.last()));
        assert(a.last() as int == b.last() as int);
    } else {
        assert(a == b);
    }
}

/// Of two versions that were kept at moments with as many digits, as all moments
/// of a century have, the earlier one comes first by name, and only that one.
pub proof fn law_versions_are_named_in_time(earlier: nat, later: nat)
    requires
        earlier < later,
        text::decimal(earlier).len() == text::decimal(later).len(),
    ensures
        ({
            let a = text::decimal(earlier) + ".md"@;
            let b = text::decimal(later) + ".md"@;
            text::text_at_most(a, b, 0) && !text::text_at_most(b, a, 0)
        }),
{
    text::lemma_decimal(earlier);
    text::lemma_decimal(later);
    let k = lemma_smaller_number_first(text::decimal(earlier), text::decimal(later));
    let a = text::decimal(earlier) + ".md"@;
    let b = text::decimal(later) + ".md"@;
    assert(a.take(k) == text::decimal(earlier).take(k));
    assert(b.take(k) == text::decimal(later).take(k));
    text::law_texts_are_ordered_by_their_characters(a, b, k);
}

/// The version that is restored is the newest: no name of the list comes behind
/// it.
pub proof fn law_the_last_version_is_the_newest(names: Seq<String>, i: int)
    requires
        0 <= i < names.len(),
    ensures
        order::sorted(names).len() > 0,
        names.contains(order::sorted(names).last()),
        text::text_at_most(names[i]@, order::sorted(names).last()@, 0),
{
    broadcast use vstd::seq_lib::group_to_multiset_ensures;

    order::law_sorting_orders_and_keeps(names);
    let all = order::sorted(names);
    assert(all.contains(all[all.len() - 1]));
    assert(all.to_multiset().count(all.last()) > 0);
    assert(names.to_multiset().count(all.last()) > 0);
    assert(names.contains(names[i]));
    assert(names.to_multiset().count(names[i]) > 0);
    assert(all.contains(names[i]));
    let k = choose|k: int| 0 <= k < all.len() && all[k] == names[i];
    assert(all[k].at_most(all[all.len() - 1]));
}

/// A name that is taken gets a number: its own stem, a dash, the number of the
/// attempt from two on, and its own ending.
pub proof fn law_a_taken_name_gets_a_number(stem: Seq<char>, extension: Seq<char>, attempt: nat)
    requires
        stem.len() > 0,
        !extension.contains('.'),
        stem + seq!['.'] + extension != ".."@,
    ensures
        numbered(stem + seq!['.'] + extension, 0) == stem + seq!['.'] + extension,
        attempt > 0 ==> numbered(stem + seq!['.'] + extension, attempt) == stem + seq!['-']
            + text::decimal(attempt + 1) + seq!['.'] + extension,
{
    reveal_strlit("-");
    reveal_strlit(".");
    reveal_strlit("..");
    assert("-"@ == seq!['-'] && "."@ == seq!['.']);
    path::law_names_are_cut_at_the_last_dot(stem, extension);
}

/// A new note is named after the moment it is begun, with a number behind it from
/// the second attempt on, and ends as a note does.
pub proof fn law_new_notes_are_named_after_their_moment(seconds: nat, attempt: nat)
    ensures
        new_note_name(seconds, 0) == "note-"@ + text::decimal(seconds) + ".md"@,
        attempt > 0 ==> new_note_name(seconds, attempt) == "note-"@ + text::decimal(seconds) + "-"@
            + text::decimal(attempt + 1) + ".md"@,
        path::markdown_name(new_note_name(seconds, attempt)),
{
    reveal_strlit(".md");
    reveal_strlit("note-");
    let stem = if attempt == 0 {
        "note-"@ + text::decimal(seconds)
    } else {
        "note-"@ + text::decimal(seconds) + "-"@ + text::decimal(attempt + 1)
    };
    assert(".md"@ == seq!['.', 'm', 'd']);
    assert(new_note_name(seconds, attempt) == stem + seq!['.', 'm', 'd']);
    path::law_names_are_cut_at_the_last_dot(stem, Seq::empty());
}

proof fn lemma_filtered(
    files: Seq<FileView>,
    wanted: spec_fn(FileView) -> bool,
    file: FileView,
)
    ensures
        files.filter(wanted).contains(file) <==> files.contains(file) && wanted(file),
    decreases files.len(),
{
    reveal(Seq::filter);
    if files.len() > 0 {
        let less = files.drop_last();
        let last = files.last();
        lemma_filtered(less, wanted, file);
        assert(files == less.push(last));
        lemma_one_more(less, last, file);
        if wanted(last) {
            lemma_one_more(less.filter(wanted), last, file);
        }
    }
}

proof fn lemma_one_more<V>(items: Seq<V>, item: V, other: V)
    ensures
        items.push(item).contains(other) <==> items.contains(other) || other == item,
{
    let more = items.push(item);
    assert(more[items.len() as int] == item);
    if items.contains(other) {
        let k = choose|k: int| 0 <= k < items.len() && items[k] == other;
        assert(more[k] == other);
    }
    if more.contains(other) {
        let k = choose|k: int| 0 <= k < more.len() && more[k] == other;
        if k < items.len() {
            assert(items[k] == other);
        }
    }
}

/// A shelf misses none of its notes: a Markdown file that was found in its folder
/// is shown, on the shelf of projects one at any depth, and on the first shelf one
/// that lies in the writing directory itself too. The names between a folder and a
/// note are those of folders.
pub proof fn law_a_shelf_misses_no_note(
    directory: path::PathView,
    index: int,
    files: Seq<FileView>,
    file: FileView,
    stem: Seq<char>,
    between: Seq<Seq<char>>,
)
    requires
        0 <= index < 9,
        files.contains(file),
        file.is_file,
        stem.len() > 0,
        ({
            let folder = category_folder(directory, index);
            let name = stem + seq!['.', 'm', 'd'];
            ||| file.place == folder.joined(name)
            ||| index == PROJECTS_CATEGORY_INDEX && file.place == (path::PathView {
                root: folder.root,
                parts: folder.parts + between + seq![name],
            })
            ||| index == 0 && file.place == directory.joined(name)
        }),
    ensures
        shelf_notes(directory, index, files).contains(file),
{
    let folder = category_folder(directory, index);
    let name = stem + seq!['.', 'm', 'd'];
    let deep = index == PROJECTS_CATEGORY_INDEX;
    path::law_names_are_cut_at_the_last_dot(stem, Seq::empty());
    reveal_strlit("..");
    assert(name.len() >= 4 && ".."@.len() == 2);
    assert(file.place.parts.last() == name);
    let own = note_views(folder, deep, files);
    let loose = note_views(directory, false, files);
    let all = if index == 0 {
        loose + own
    } else {
        own
    };
    let in_own = |f: FileView| note_in(folder, deep, f);
    let in_loose = |f: FileView| note_in(directory, false, f);
    lemma_filtered(files, in_own, file);
    lemma_filtered(files, in_loose, file);
    if index == 0 && file.place == directory.joined(name) {
        assert(directory.joined(name).parts.take(directory.parts.len() as int)
            == directory.parts);
        assert(note_in(directory, false, file));
        assert(loose.contains(file));
        let k = choose|k: int| 0 <= k < loose.len() && loose[k] == file;
        assert(all[k] == file);
    } else {
        assert(file.place.parts.take(folder.parts.len() as int) == folder.parts);
        assert(note_in(folder, deep, file));
        assert(own.contains(file));
        let k = choose|k: int| 0 <= k < own.len() && own[k] == file;
        if index == 0 {
            assert(all[loose.len() + k] == file);
        } else {
            assert(all[k] == file);
        }
    }
    order::law_sorting_by_keeps_members(all, |a: FileView, b: FileView| newer(a, b), file);
}

/// A shelf shows only files that were found, and the one that was changed later
/// always before the one that was changed earlier.
pub proof fn law_a_shelf_shows_the_newest_first(
    directory: path::PathView,
    index: int,
    files: Seq<FileView>,
    i: int,
    j: int,
)
    requires
        0 <= i <= j < shelf_notes(directory, index, files).len(),
    ensures
        shelf_notes(directory, index, files)[i].modified >= shelf_notes(
            directory,
            index,
            files,
        )[j].modified,
        files.contains(shelf_notes(directory, index, files)[i]),
        shelf_notes(directory, index, files)[i].is_file,
{
    let folder = category_folder(directory, index);
    let deep = index == PROJECTS_CATEGORY_INDEX;
    let own = note_views(folder, deep, files);
    let loose = note_views(directory, false, files);
    let all = if index == 0 {
        loose + own
    } else {
        own
    };
    let at_most = |a: FileView, b: FileView| newer(a, b);
    let shown = shelf_notes(directory, index, files);
    order::lemma_sorted_by_orders(all, at_most);
    assert(at_most(shown[i], shown[j]));
    let file = shown[i];
    order::law_sorting_by_keeps_members(all, at_most, file);
    assert(shown.contains(file));
    lemma_filtered(files, |f: FileView| note_in(folder, deep, f), file);
    lemma_filtered(files, |f: FileView| note_in(directory, false, f), file);
    let k = choose|k: int| 0 <= k < all.len() && all[k] == file;
    if index == 0 && k < loose.len() {
        assert(loose.contains(loose[k]));
    } else if index == 0 {
        assert(own.contains(own[k - loose.len()]));
    } else {
        assert(own.contains(own[k]));
    }
}

/// The note that was changed latest is one of the files, and none was changed
/// after it.
pub proof fn law_the_latest_is_the_latest(files: Seq<FileView>, count: int, i: int)
    requires
        0 <= i < count <= files.len(),
    ensures
        0 <= latest_of(files, count) < count,
        files[i].modified <= files[latest_of(files, count)].modified,
        i > latest_of(files, count) ==> files[i].modified < files[latest_of(
            files,
            count,
        )].modified,
    decreases count,
{
    if count > 1 {
        if i < count - 1 {
            law_the_latest_is_the_latest(files, count - 1, i);
        } else {
            law_the_latest_is_the_latest(files, count - 1, 0);
        }
    }
}

/// The chapters of a book among what was found, in order.
pub open spec fn chapters_of(project: path::PathView, files: Seq<FileView>) -> Seq<path::PathView> {
    order::sorted_by(
        file_places(note_views(project, true, files)),
        |a: path::PathView, b: path::PathView| a.at_most(b),
    )
}

/// The chapters of a book stand in the order of their names: for any two of them
/// that start from the same root, the name at which they differ first is smaller,
/// at the character at which it differs first, in the one that stands first; and
/// a name comes before every longer one that begins with it.
pub proof fn law_chapters_stand_in_the_order_of_their_names(
    project: path::PathView,
    files: Seq<FileView>,
    i: int,
    j: int,
    k: int,
    c: int,
)
    requires
        0 <= i < j < chapters_of(project, files).len(),
        ({
            let a = chapters_of(project, files)[i];
            let b = chapters_of(project, files)[j];
            &&& a.root == b.root
            &&& 0 <= k < a.parts.len()
            &&& k < b.parts.len()
            &&& a.parts.take(k) == b.parts.take(k)
            &&& 0 <= c <= a.parts[k].len()
            &&& c <= b.parts[k].len()
            &&& a.parts[k].take(c) == b.parts[k].take(c)
            &&& a.parts[k] != b.parts[k]
            &&& c == a.parts[k].len() || c == b.parts[k].len() || a.parts[k][c] != b.parts[k][c]
        }),
    ensures
        ({
            let a = chapters_of(project, files)[i].parts[k];
            let b = chapters_of(project, files)[j].parts[k];
            &&& c < b.len()
            &&& c < a.len() ==> a[c] < b[c]
        }),
{
    let at_most = |a: path::PathView, b: path::PathView| a.at_most(b);
    let found = file_places(note_views(project, true, files));
    assert forall|a: path::PathView, b: path::PathView| #[trigger] at_most(a, b) || at_most(
        b,
        a,
    ) by {
        path::lemma_paths_total(a, b);
    }
    assert forall|a: path::PathView, b: path::PathView, c: path::PathView| #[trigger]
        at_most(a, b) && #[trigger] at_most(b, c) implies at_most(a, c) by {
        path::lemma_paths_transitive(a, b, c);
    }
    order::lemma_sorted_by_orders(found, at_most);
    let a = chapters_of(project, files)[i];
    let b = chapters_of(project, files)[j];
    assert(at_most(a, b));
    path::law_paths_are_ordered_by_their_names(b, a, k, c);
    if c == a.parts[k].len() && c == b.parts[k].len() {
        assert(a.parts[k].take(c) == a.parts[k] && b.parts[k].take(c) == b.parts[k]);
    }
    if c == b.parts[k].len() && c < a.parts[k].len() {
        assert(b.parts[k].take(c) == b.parts[k]);
    }
}

/// A book has every Markdown file below its folder for a chapter, and no other.
pub proof fn law_a_book_has_all_its_chapters(
    project: path::PathView,
    files: Seq<FileView>,
    place: path::PathView,
)
    ensures
        chapters_of(project, files).contains(place) <==> exists|i: int|
            0 <= i < files.len() && (#[trigger] files[i]).place == place && note_in(
                project,
                true,
                files[i],
            ),
{
    let at_most = |a: path::PathView, b: path::PathView| a.at_most(b);
    let wanted = |f: FileView| note_in(project, true, f);
    let notes = note_views(project, true, files);
    let found = file_places(notes);
    order::law_sorting_by_keeps_members(found, at_most, place);
    if found.contains(place) {
        let k = choose|k: int| 0 <= k < found.len() && found[k] == place;
        lemma_filtered(files, wanted, notes[k]);
        assert(notes.contains(notes[k]));
        let i = choose|i: int| 0 <= i < files.len() && files[i] == notes[k];
        assert(files[i].place == place && note_in(project, true, files[i]));
    }
    if exists|i: int|
        0 <= i < files.len() && (#[trigger] files[i]).place == place && note_in(
            project,
            true,
            files[i],
        ) {
        let i = choose|i: int|
            0 <= i < files.len() && (#[trigger] files[i]).place == place && note_in(
                project,
                true,
                files[i],
            );
        lemma_filtered(files, wanted, files[i]);
        assert(files.contains(files[i]));
        let k = choose|k: int| 0 <= k < notes.len() && notes[k] == files[i];
        assert(found[k] == place);
    }
}

/// Twenty versions of a note are kept: of more, just as many go as there are above
/// twenty, and no version that stays comes by name before one that goes.
pub proof fn law_twenty_versions_are_kept(names: Seq<String>, i: int, j: int)
    requires
        0 <= i < names.len() - 20 <= j < names.len(),
    ensures
        VERSION_LIMIT == 20,
        order::sorted(names).len() == names.len(),
        text::text_at_most(order::sorted(names)[i]@, order::sorted(names)[j]@, 0),
{
    order::law_sorting_orders_and_keeps(names);
    let all = order::sorted(names);
    assert(all[i].at_most(all[j]));
}

/// The notes of a folder are the Markdown files directly in it, each of them, and
/// no other.
pub proof fn law_a_folder_holds_its_markdown(
    folder: path::PathView,
    files: Seq<FileView>,
    file: FileView,
    stem: Seq<char>,
)
    requires
        stem.len() > 0,
    ensures
        files.contains(file) && file.place == folder.joined(stem + seq!['.', 'm', 'd'])
            ==> markdown_entries(folder, files).contains(file),
        markdown_entries(folder, files).contains(file) ==> files.contains(file)
            && file.place.root == folder.root && file.place.parts.len() == folder.parts.len() + 1
            && file.place.parts.drop_last() == folder.parts && file.place.markdown(),
{
    let name = stem + seq!['.', 'm', 'd'];
    path::law_names_are_cut_at_the_last_dot(stem, Seq::empty());
    reveal_strlit("..");
    assert(name.len() >= 4 && ".."@.len() == 2);
    lemma_filtered(files, |f: FileView| markdown_entry(folder, f), file);
    if file.place == folder.joined(name) {
        assert(file.place.parts.last() == name);
        assert(file.place.parts.take(folder.parts.len() as int) == folder.parts);
    }
    if markdown_entry(folder, file) {
        assert(file.place.parts.take(folder.parts.len() as int) == folder.parts);
        assert(file.place.parts.drop_last() == file.place.parts.take(folder.parts.len() as int));
    }
}

} // verus!
