//! Places of notes: a root and the names on the way down from it.
use vstd::prelude::*;

use crate::order::Ranked;
use crate::text;

verus! {

/// A path: what it starts from (`/`, a drive, or nothing) and its names.
#[derive(Debug)]
pub struct NotePath {
    pub root: String,
    pub parts: Vec<String>,
}

/// A path as a mathematical value.
#[verifier::ext_equal]
pub struct PathView {
    pub root: Seq<char>,
    pub parts: Seq<Seq<char>>,
}

impl View for NotePath {
    type V = PathView;

    open spec fn view(&self) -> PathView {
        PathView { root: self.root@, parts: text::views(self.parts@) }
    }
}

/// The place of the last dot in a name, looking at its first `count`
/// characters; -1 if there is none.
pub open spec fn last_dot(name: Seq<char>, count: int) -> int
    decreases count,
{
    if count <= 0 {
        -1
    } else if name[count - 1] == '.' {
        count - 1
    } else {
        last_dot(name, count - 1)
    }
}

/// The name without its extension. A dot at the very beginning starts none.
pub open spec fn stem_of(name: Seq<char>) -> Seq<char> {
    let dot = last_dot(name, name.len() as int);
    if dot <= 0 || name == ".."@ {
        name
    } else {
        name.take(dot)
    }
}

/// The extension of a name, if it has one.
pub open spec fn extension_of(name: Seq<char>) -> Option<Seq<char>> {
    let dot = last_dot(name, name.len() as int);
    if dot <= 0 || name == ".."@ {
        None
    } else {
        Some(name.skip(dot + 1))
    }
}

/// Whether a name is that of a Markdown file.
pub open spec fn markdown_name(name: Seq<char>) -> bool {
    extension_of(name) == Some("md"@)
}

impl PathView {
    pub open spec fn joined(self, name: Seq<char>) -> PathView {
        PathView { parts: self.parts.push(name), ..self }
    }

    pub open spec fn below(self, base: PathView) -> bool {
        self.root == base.root && base.parts.is_prefix_of(self.parts)
    }

    /// The last name, unless it leads upward.
    pub open spec fn name(self) -> Option<Seq<char>> {
        if self.parts.len() > 0 && self.parts.last() != ".."@ {
            Some(self.parts.last())
        } else {
            None
        }
    }

    pub open spec fn parent(self) -> PathView {
        PathView { parts: self.parts.drop_last(), ..self }
    }

    /// The path with its last name replaced, or one more name where it has none.
    pub open spec fn renamed(self, name: Seq<char>) -> PathView {
        if self.name() is Some {
            self.parent().joined(name)
        } else {
            self.joined(name)
        }
    }

    /// Whether the last name is that of a Markdown file.
    pub open spec fn markdown(self) -> bool {
        self.name() is Some && markdown_name(self.name()->0)
    }

    /// Whether the path comes before another or is the same: by root, then name
    /// by name.
    pub open spec fn at_most(self, other: PathView) -> bool {
        if self.root != other.root {
            text::text_at_most(self.root, other.root, 0)
        } else {
            names_at_most(self.parts, other.parts, 0)
        }
    }

    /// The path as text, with slashes.
    pub open spec fn shown(self) -> Seq<char> {
        self.root + slashed(self.parts)
    }
}

/// Names with slashes between them.
pub open spec fn slashed(parts: Seq<Seq<char>>) -> Seq<char>
    decreases parts.len(),
{
    if parts.len() == 0 {
        Seq::empty()
    } else if parts.len() == 1 {
        parts[0]
    } else {
        slashed(parts.drop_last()) + "/"@ + parts.last()
    }
}

fn find_last_dot(name: &[char]) -> (dot: Option<usize>)
    ensures
        match dot {
            Some(d) => d < name.len() && last_dot(name@, name@.len() as int) == d,
            None => last_dot(name@, name@.len() as int) == -1,
        },
{
    let mut count: usize = name.len();
    while count > 0
        invariant
            count <= name@.len(),
            last_dot(name@, count as int) == last_dot(name@, name@.len() as int),
        decreases count,
    {
        if name[count - 1] == '.' {
            return Some(count - 1);
        }
        count -= 1;
    }
    None
}

/// The name without its extension.
pub fn file_stem(name: &str) -> (stem: String)
    ensures
        stem@ == stem_of(name@),
{
    let chars: Vec<char> = text::chars_of(name);
    let upward: bool = text::same(name, "..");
    match find_last_dot(chars.as_slice()) {
        Some(dot) => if dot == 0 || upward {
            text::owned(name)
        } else {
            let stem: Vec<char> = text::chars_between(chars.as_slice(), 0, dot);
            assert(stem@ == name@.take(dot as int));
            text::string_of(stem.as_slice())
        },
        None => text::owned(name),
    }
}

/// The extension of a name.
pub fn file_extension(name: &str) -> (extension: Option<String>)
    ensures
        match extension {
            Some(e) => extension_of(name@) == Some(e@),
            None => extension_of(name@) is None,
        },
{
    let chars: Vec<char> = text::chars_of(name);
    let upward: bool = text::same(name, "..");
    match find_last_dot(chars.as_slice()) {
        Some(dot) => if dot == 0 || upward {
            None
        } else {
            let tail: Vec<char> = text::chars_between(chars.as_slice(), dot + 1, chars.len());
            assert(tail@ == name@.skip(dot + 1));
            Some(text::string_of(tail.as_slice()))
        },
        None => None,
    }
}

/// Whether a name is that of a Markdown file.
pub fn is_markdown_name(name: &str) -> (yes: bool)
    ensures
        yes == markdown_name(name@),
{
    match file_extension(name) {
        Some(extension) => text::same(extension.as_str(), "md"),
        None => false,
    }
}

fn copy_names(names: &Vec<String>, count: usize) -> (copy: Vec<String>)
    requires
        count <= names@.len(),
    ensures
        text::views(copy@) == text::views(names@).take(count as int),
{
    let mut copy: Vec<String> = Vec::new();
    let mut i: usize = 0;
    while i < count
        invariant
            i <= count <= names@.len(),
            text::views(copy@) == text::views(names@).take(i as int),
        decreases count - i,
    {
        let ghost before = copy@;
        let name: String = text::owned(names[i].as_str());
        copy.push(name);
        proof {
            assert(text::views(copy@) == text::views(before).push(name@));
            assert(text::views(names@)[i as int] == name@);
            assert(text::views(names@).take(i + 1) == text::views(names@).take(i as int).push(
                name@,
            ));
        }
        i += 1;
    }
    copy
}

impl NotePath {
    /// A copy.
    pub fn copy(&self) -> (copy: NotePath)
        ensures
            copy@ == self@,
    {
        let parts: Vec<String> = copy_names(&self.parts, self.parts.len());
        assert(text::views(parts@) == text::views(self.parts@));
        NotePath { root: text::owned(self.root.as_str()), parts }
    }

    /// The path with a name added.
    pub fn join(&self, name: &str) -> (path: NotePath)
        ensures
            path@ == self@.joined(name@),
    {
        let mut path: NotePath = self.copy();
        path.parts.push(text::owned(name));
        assert(path@.parts == self@.parts.push(name@));
        path
    }

    /// Whether the path lies at or below another.
    pub fn starts_with(&self, base: &NotePath) -> (yes: bool)
        ensures
            yes == self@.below(base@),
    {
        if !text::same(self.root.as_str(), base.root.as_str()) {
            return false;
        }
        if base.parts.len() > self.parts.len() {
            return false;
        }
        let mut i: usize = 0;
        while i < base.parts.len()
            invariant
                i <= base.parts@.len() <= self.parts@.len(),
                forall|k: int| 0 <= k < i ==> base@.parts[k] == self@.parts[k],
            decreases base.parts@.len() - i,
        {
            if !text::same(self.parts[i].as_str(), base.parts[i].as_str()) {
                assert(base@.parts[i as int] != self@.parts.take(base@.parts.len() as int)[i as int]);
                return false;
            }
            i += 1;
        }
        assert(base@.parts == self@.parts.take(base@.parts.len() as int));
        true
    }

    /// Whether two paths are the same.
    pub fn same(&self, other: &NotePath) -> (yes: bool)
        ensures
            yes == (self@ == other@),
    {
        if self.parts.len() != other.parts.len() {
            assert(self@.parts.len() != other@.parts.len());
            return false;
        }
        let yes: bool = self.starts_with(other);
        assert(self@.parts.take(self@.parts.len() as int) == self@.parts);
        yes
    }

    /// The last name.
    pub fn file_name(&self) -> (name: Option<String>)
        ensures
            match name {
                Some(n) => self@.name() == Some(n@),
                None => self@.name() is None,
            },
    {
        if self.parts.len() == 0 {
            return None;
        }
        let last: usize = self.parts.len() - 1;
        assert(self@.parts.last() == self.parts@[last as int]@);
        if text::same(self.parts[last].as_str(), "..") {
            None
        } else {
            Some(text::owned(self.parts[last].as_str()))
        }
    }

    /// The path without its last name; nothing where it has no name at all.
    pub fn parent(&self) -> (path: Option<NotePath>)
        ensures
            match path {
                Some(p) => self@.parts.len() > 0 && p@ == self@.parent(),
                None => self@.parts.len() == 0,
            },
    {
        if self.parts.len() == 0 {
            return None;
        }
        let parts: Vec<String> = copy_names(&self.parts, self.parts.len() - 1);
        assert(text::views(parts@) == self@.parts.drop_last());
        Some(NotePath { root: text::owned(self.root.as_str()), parts })
    }

    /// The path with its last name replaced.
    pub fn with_file_name(&self, name: &str) -> (path: NotePath)
        ensures
            path@ == self@.renamed(name@),
    {
        match self.file_name() {
            Some(_) => match self.parent() {
                Some(folder) => folder.join(name),
                None => self.join(name),
            },
            None => self.join(name),
        }
    }

    /// Whether the last name is that of a Markdown file.
    pub fn is_markdown(&self) -> (yes: bool)
        ensures
            yes == self@.markdown(),
    {
        match self.file_name() {
            Some(name) => is_markdown_name(name.as_str()),
            None => false,
        }
    }

    /// The path as text, with slashes.
    pub fn show(&self) -> (shown: String)
        ensures
            shown@ == self@.shown(),
    {
        let mut shown: String = text::owned(self.root.as_str());
        shown.append(join_with_slashes(&self.parts, 0).as_str());
        assert(self@.parts.skip(0) == self@.parts);
        shown
    }
}

/// The names from `from` on, with slashes between them.
pub fn join_with_slashes(parts: &Vec<String>, from: usize) -> (joined: String)
    requires
        from <= parts@.len(),
    ensures
        joined@ == slashed(text::views(parts@).skip(from as int)),
{
    let ghost names = text::views(parts@).skip(from as int);
    let mut joined = String::new();
    let mut i: usize = from;
    assert(joined@ == slashed(names.take(0)));
    while i < parts.len()
        invariant
            from <= i <= parts@.len(),
            names == text::views(parts@).skip(from as int),
            joined@ == slashed(names.take(i - from)),
        decreases parts@.len() - i,
    {
        if i > from {
            joined.append("/");
        }
        joined.append(parts[i].as_str());
        proof {
            let next = names.take(i + 1 - from);
            assert(next.drop_last() == names.take(i - from));
            assert(next.last() == parts@[i as int]@);
            if i == from {
                assert(joined@ == parts@[i as int]@);
            }
        }
        i += 1;
    }
    assert(names.take(parts@.len() - from) == names);
    joined
}

/// Whether one list of names comes before another or is the same, name by name
/// from `at` on.
pub open spec fn names_at_most(a: Seq<Seq<char>>, b: Seq<Seq<char>>, at: int) -> bool
    decreases a.len() - at,
{
    if at >= a.len() {
        true
    } else if at >= b.len() {
        false
    } else if a[at] != b[at] {
        text::text_at_most(a[at], b[at], 0)
    } else {
        names_at_most(a, b, at + 1)
    }
}

proof fn lemma_names_total(a: Seq<Seq<char>>, b: Seq<Seq<char>>, at: int)
    ensures
        names_at_most(a, b, at) || names_at_most(b, a, at),
    decreases a.len() - at,
{
    if at < a.len() && at < b.len() {
        text::lemma_text_total(a[at], b[at], 0);
        if a[at] == b[at] {
            lemma_names_total(a, b, at + 1);
        }
    }
}

proof fn lemma_names_transitive(
    a: Seq<Seq<char>>,
    b: Seq<Seq<char>>,
    c: Seq<Seq<char>>,
    at: int,
)
    requires
        names_at_most(a, b, at),
        names_at_most(b, c, at),
    ensures
        names_at_most(a, c, at),
    decreases a.len() - at,
{
    if at < a.len() && at < b.len() && at < c.len() {
        if a[at] == b[at] && b[at] == c[at] {
            lemma_names_transitive(a, b, c, at + 1);
        } else if a[at] != b[at] && b[at] != c[at] {
            text::lemma_text_transitive(a[at], b[at], c[at], 0);
            if a[at] == c[at] {
                text::lemma_text_antisymmetric(a[at], b[at], 0);
            }
        }
    }
}

pub proof fn lemma_paths_total(a: PathView, b: PathView)
    ensures
        a.at_most(b) || b.at_most(a),
{
    text::lemma_text_total(a.root, b.root, 0);
    lemma_names_total(a.parts, b.parts, 0);
}

pub proof fn lemma_paths_transitive(a: PathView, b: PathView, c: PathView)
    requires
        a.at_most(b),
        b.at_most(c),
    ensures
        a.at_most(c),
{
    if a.root == b.root && b.root == c.root {
        lemma_names_transitive(a.parts, b.parts, c.parts, 0);
    } else if a.root != b.root && b.root != c.root {
        text::lemma_text_transitive(a.root, b.root, c.root, 0);
        if a.root == c.root {
            text::lemma_text_antisymmetric(a.root, b.root, 0);
        }
    }
}

impl Ranked for NotePath {
    open spec fn at_most(self, other: NotePath) -> bool {
        self@.at_most(other@)
    }

    proof fn total(a: NotePath, b: NotePath) {
        lemma_paths_total(a@, b@);
    }

    proof fn transitive(a: NotePath, b: NotePath, c: NotePath) {
        lemma_paths_transitive(a@, b@, c@);
    }

    fn ranks_at_most(&self, other: &NotePath) -> (yes: bool) {
        if !text::same(self.root.as_str(), other.root.as_str()) {
            return text::comes_at_most(
                text::chars_of(self.root.as_str()).as_slice(),
                text::chars_of(other.root.as_str()).as_slice(),
            );
        }
        let mut i: usize = 0;
        while i < self.parts.len()
            invariant
                i <= self.parts@.len(),
                names_at_most(self@.parts, other@.parts, i as int) == names_at_most(
                    self@.parts,
                    other@.parts,
                    0,
                ),
                self@.root == other@.root,
            decreases self.parts@.len() - i,
        {
            if i >= other.parts.len() {
                return false;
            }
            if !text::same(self.parts[i].as_str(), other.parts[i].as_str()) {
                return text::comes_at_most(
                    text::chars_of(self.parts[i].as_str()).as_slice(),
                    text::chars_of(other.parts[i].as_str()).as_slice(),
                );
            }
            i += 1;
        }
        true
    }
}

/// Paths as mathematical values.
pub open spec fn path_views(paths: Seq<NotePath>) -> Seq<PathView> {
    paths.map_values(|path: NotePath| path@)
}

/// Paths that start from one root are ordered by their names: where they first
/// differ, the one with the smaller name comes first, and only that one; a folder
/// comes before what lies in it.
pub proof fn law_paths_are_ordered_by_their_names(a: PathView, b: PathView, k: int, c: int)
    requires
        a.root == b.root,
        0 <= k <= a.parts.len(),
        k <= b.parts.len(),
        a.parts.take(k) == b.parts.take(k),
    ensures
        k < a.parts.len() && k < b.parts.len() && 0 <= c < a.parts[k].len() && c
            < b.parts[k].len() && a.parts[k].take(c) == b.parts[k].take(c) && a.parts[k][c]
            < b.parts[k][c] ==> a.at_most(b) && !b.at_most(a),
        k < a.parts.len() && k < b.parts.len() && c == a.parts[k].len() && c < b.parts[k].len()
            && a.parts[k] == b.parts[k].take(c) ==> a.at_most(b) && !b.at_most(a),
        k == a.parts.len() ==> a.at_most(b),
        k == a.parts.len() && k < b.parts.len() ==> !b.at_most(a),
{
    lemma_names_after(a.parts, b.parts, k, 0);
    if k < a.parts.len() && k < b.parts.len() && 0 <= c <= a.parts[k].len() && c
        <= b.parts[k].len() && a.parts[k].take(c) == b.parts[k].take(c) {
        text::law_texts_are_ordered_by_their_characters(a.parts[k], b.parts[k], c);
    }
    if k < a.parts.len() && k < b.parts.len() && c == a.parts[k].len() {
        assert(a.parts[k].take(c) == a.parts[k]);
    }
}

proof fn lemma_names_after(a: Seq<Seq<char>>, b: Seq<Seq<char>>, k: int, at: int)
    requires
        0 <= at <= k <= a.len(),
        k <= b.len(),
        a.take(k) == b.take(k),
    ensures
        names_at_most(a, b, at) == names_at_most(a, b, k),
        names_at_most(b, a, at) == names_at_most(b, a, k),
    decreases k - at,
{
    if at < k {
        assert(a[at] == a.take(k)[at] && b[at] == b.take(k)[at]);
        lemma_names_after(a, b, k, at + 1);
    }
}

/// A list of paths in order holds no path whose first differing name begins a
/// later one: for any two that stand one behind the other and start from one root,
/// the name at which they differ is smaller in the first, at the first character
/// that differs.
pub proof fn law_ordered_paths_differ_upward(
    a: PathView,
    b: PathView,
    k: int,
    c: int,
)
    requires
        a.at_most(b),
        a.root == b.root,
        0 <= k < a.parts.len(),
        k < b.parts.len(),
        a.parts.take(k) == b.parts.take(k),
        0 <= c < a.parts[k].len(),
        c < b.parts[k].len(),
        a.parts[k].take(c) == b.parts[k].take(c),
        a.parts[k][c] != b.parts[k][c],
    ensures
        a.parts[k][c] < b.parts[k][c],
{
    if b.parts[k][c] < a.parts[k][c] {
        law_paths_are_ordered_by_their_names(b, a, k, c);
    }
}

proof fn lemma_last_dot(name: Seq<char>, count: int, dot: int)
    requires
        0 <= dot < count <= name.len(),
        name[dot] == '.',
        forall|i: int| dot < i < count ==> #[trigger] name[i] != '.',
    ensures
        last_dot(name, count) == dot,
    decreases count,
{
    if dot < count - 1 {
        assert(name[count - 1] != '.');
        lemma_last_dot(name, count - 1, dot);
    }
}

proof fn lemma_no_dot(name: Seq<char>, count: int)
    requires
        0 <= count <= name.len(),
        forall|i: int| 0 <= i < count ==> #[trigger] name[i] != '.',
    ensures
        last_dot(name, count) == -1,
    decreases count,
{
    if count > 0 {
        assert(name[count - 1] != '.');
        lemma_no_dot(name, count - 1);
    }
}

/// A name is cut at its last dot: what stands before it, if anything does, is the
/// stem, and what stands behind it the extension. A name without a dot, or with
/// its only dot at the beginning, has no extension. Markdown is what ends in
/// `.md`.
pub proof fn law_names_are_cut_at_the_last_dot(stem: Seq<char>, extension: Seq<char>)
    requires
        !extension.contains('.'),
    ensures
        stem.len() > 0 && stem + seq!['.'] + extension != ".."@ ==> stem_of(
            stem + seq!['.'] + extension,
        ) == stem && extension_of(stem + seq!['.'] + extension) == Some(extension),
        stem_of(extension) == extension,
        extension_of(extension) is None,
        stem_of(seq!['.'] + extension) == seq!['.'] + extension,
        extension_of(seq!['.'] + extension) is None,
        stem.len() > 0 ==> markdown_name(stem + seq!['.', 'm', 'd']),
        !markdown_name(extension),
        stem.len() > 0 && extension != "md"@ ==> !markdown_name(stem + seq!['.'] + extension),
{
    reveal_strlit("md");
    reveal_strlit("..");
    let whole = stem + seq!['.'] + extension;
    let dot = stem.len() as int;
    assert(whole[dot] == '.');
    assert forall|i: int| dot < i < whole.len() implies #[trigger] whole[i] != '.' by {
        assert(whole[i] == extension[i - dot - 1]);
    }
    lemma_last_dot(whole, whole.len() as int, dot);
    assert(whole.take(dot) == stem);
    assert(whole.skip(dot + 1) == extension);
    assert forall|i: int| 0 <= i < extension.len() implies #[trigger] extension[i] != '.' by {
        assert(extension.contains(extension[i]));
    }
    lemma_no_dot(extension, extension.len() as int);
    let hidden = seq!['.'] + extension;
    assert(hidden[0] == '.');
    assert forall|i: int| 0 < i < hidden.len() implies #[trigger] hidden[i] != '.' by {
        assert(hidden[i] == extension[i - 1]);
    }
    lemma_last_dot(hidden, hidden.len() as int, 0);
    let note = stem + seq!['.', 'm', 'd'];
    assert(note[dot] == '.');
    assert(note[dot + 1] == 'm' && note[dot + 2] == 'd');
    lemma_last_dot(note, note.len() as int, dot);
    assert(note.skip(dot + 1) == "md"@);
    assert("md"@ == seq!['m', 'd']);
    assert("md"@.len() == 2 && note.len() >= 3);
}

/// A path is shown as its root and its names with a slash between each two.
pub proof fn law_paths_are_shown_with_slashes(place: PathView, name: Seq<char>)
    ensures
        place.parts.len() == 0 ==> place.shown() == place.root && place.joined(name).shown()
            == place.root + name,
        place.parts.len() > 0 ==> place.joined(name).shown() == place.shown() + seq!['/'] + name,
{
    reveal_strlit("/");
    assert("/"@ == seq!['/']);
    assert(place.parts.push(name).drop_last() == place.parts);
    if place.parts.len() == 0 {
        assert(place.root + Seq::<char>::empty() == place.root);
    } else {
        assert(place.root + (slashed(place.parts) + "/"@ + name) == place.root + slashed(
            place.parts,
        ) + "/"@ + name);
    }
}

/// What is added below a path lies below it, below all that it lies below itself,
/// and below no path that begins otherwise.
pub proof fn law_what_is_joined_lies_below(base: PathView, place: PathView, name: Seq<char>)
    ensures
        base.below(base),
        base.joined(name).below(base),
        !base.below(base.joined(name)),
        base.joined(name).name() == if name == ".."@ {
            None
        } else {
            Some(name)
        },
        base.joined(name).parent() == base,
        place.below(base) ==> place.joined(name).below(base),
        place.root != base.root ==> !place.below(base),
        forall|i: int|
            0 <= i < base.parts.len() && i < place.parts.len() && #[trigger] base.parts[i]
                != place.parts[i] ==> !place.below(base),
{
    assert(base.parts.take(base.parts.len() as int) == base.parts);
    assert(base.joined(name).parts.take(base.parts.len() as int) == base.parts);
    assert(base.joined(name).parts.drop_last() == base.parts);
    if place.below(base) {
        assert(place.joined(name).parts.take(base.parts.len() as int) == base.parts);
    }
}

/// A renamed note stays in its folder.
pub proof fn law_renaming_stays_in_the_folder(folder: PathView, before: Seq<char>, after: Seq<char>)
    requires
        before != ".."@,
    ensures
        folder.joined(before).renamed(after) == folder.joined(after),
{
    assert(folder.joined(before).parts.drop_last() == folder.parts);
}

} // verus!
