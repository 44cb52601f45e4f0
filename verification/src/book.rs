//! Books: what a new one holds, and how its chapters become one manuscript.
use vstd::prelude::*;

use crate::html;
use crate::path;
use crate::path::NotePath;
use crate::shelf;
use crate::text;

verus! {

/// The HTML that pulldown-cmark makes of a Markdown text with all its extensions.
pub uninterp spec fn markdown_html(markdown: Seq<char>) -> Seq<char>;

/// Calls `pulldown_cmark::html::push_html` on a parser with `Options::all()`; the
/// result is named, not described.
#[verifier::external_body]
fn markdown_to_html(markdown: &str) -> (body: String)
    ensures
        body@ == markdown_html(markdown@),
{
    let parser = pulldown_cmark::Parser::new_ext(markdown, pulldown_cmark::Options::all());
    let mut body = String::new();
    pulldown_cmark::html::push_html(&mut body, parser);
    body
}

/// The first `count` chapters as one text: a rule between them, and each ending
/// its line.
pub open spec fn manuscript(chapters: Seq<Seq<char>>, count: int) -> Seq<char>
    decreases count,
{
    if count <= 0 {
        Seq::empty()
    } else {
        let before = manuscript(chapters, count - 1);
        let whole = if count > 1 {
            before + "\n\n---\n\n"@ + chapters[count - 1]
        } else {
            before + chapters[count - 1]
        };
        if whole.len() > 0 && whole.last() == '\n' {
            whole
        } else {
            whole.push('\n')
        }
    }
}

fn ends_line(s: &str) -> (yes: bool)
    ensures
        yes == (s@.len() > 0 && s@.last() == '\n'),
{
    let chars: Vec<char> = text::chars_of(s);
    chars.len() > 0 && chars[chars.len() - 1] == '\n'
}

/// Joins chapters into a manuscript.
pub fn join_chapters(chapters: &Vec<String>) -> (markdown: String)
    ensures
        markdown@ == manuscript(text::views(chapters@), chapters@.len() as int),
{
    let ghost shown = text::views(chapters@);
    let mut markdown = String::new();
    assert(markdown@ == Seq::<char>::empty());
    let mut i: usize = 0;
    while i < chapters.len()
        invariant
            i <= chapters@.len(),
            shown == text::views(chapters@),
            markdown@ == manuscript(shown, i as int),
        decreases chapters@.len() - i,
    {
        assert(shown[i as int] == chapters@[i as int]@);
        if i > 0 {
            markdown.append("\n\n---\n\n");
        }
        markdown.append(chapters[i].as_str());
        if !ends_line(markdown.as_str()) {
            markdown.push('\n');
        }
        i += 1;
    }
    markdown
}

/// Escapes a title for HTML.
pub fn html_escape(input: &str) -> (result: String)
    ensures
        result@ == html::escaped(input@, false),
{
    html::escape(input, false)
}

/// A manuscript in HTML, from its title and its body.
pub open spec fn manuscript_html(title: Seq<char>, body: Seq<char>) -> Seq<char> {
    "<!doctype html>\n<html lang=\"en\"><head><meta charset=\"utf-8\"><meta name=\"viewport\" content=\"width=device-width,initial-scale=1\"><title>"@
        + html::escaped(title, false)
        + "</title><style>body{font-family:serif;line-height:1.5;max-width:42em;margin:auto}h1{page-break-before:always;text-align:center;margin-top:20%}h1:first-child{page-break-before:avoid}hr{page-break-after:always;border:0}p{orphans:2;widows:2}</style></head><body>\n"@
        + body + "\n</body></html>\n"@
}

/// Sets a body of HTML in a page of its own.
pub fn book_page(title: &str, body: &str) -> (page: String)
    ensures
        page@ == manuscript_html(title@, body@),
{
    let mut page: String = text::owned(
        "<!doctype html>\n<html lang=\"en\"><head><meta charset=\"utf-8\"><meta name=\"viewport\" content=\"width=device-width,initial-scale=1\"><title>",
    );
    page.append(html_escape(title).as_str());
    page.append(
        "</title><style>body{font-family:serif;line-height:1.5;max-width:42em;margin:auto}h1{page-break-before:always;text-align:center;margin-top:20%}h1:first-child{page-break-before:avoid}hr{page-break-after:always;border:0}p{orphans:2;widows:2}</style></head><body>\n",
    );
    page.append(body);
    page.append("\n</body></html>\n");
    page
}

/// What is said beside an exported book.
pub const EXPORT_NOTE: &'static str = "manuscript.html: upload to KDP as a reflowable eBook or no-bleed paperback manuscript.\nmanuscript.md: portable combined source and conversion input.\nAlways inspect the result in Kindle Previewer or KDP Print Previewer before publishing.\n";

/// A file to be written.
#[derive(Debug)]
pub struct NewFile {
    pub place: NotePath,
    pub contents: String,
}

/// A file to be written, as a mathematical value.
pub type FileText = (path::PathView, Seq<char>);

pub open spec fn new_files(files: Seq<NewFile>) -> Seq<FileText> {
    files.map_values(|file: NewFile| (file.place@, file.contents@))
}

fn add_file(files: &mut Vec<NewFile>, folder: &NotePath, name: &str, contents: String)
    ensures
        new_files(final(files)@) == new_files(old(files)@).push((folder@.joined(name@), contents@)),
{
    let file: NewFile = NewFile { place: folder.join(name), contents };
    files.push(file);
    assert(new_files(files@) == new_files(old(files)@).push((folder@.joined(name@), contents@)));
}

/// The title of a book: the name of its folder.
pub open spec fn title_of(project: path::PathView) -> Seq<char> {
    match project.name() {
        Some(name) => name,
        None => "Untitled Book"@,
    }
}

/// The title of a book.
pub fn book_title(project: &NotePath) -> (title: String)
    ensures
        title@ == title_of(project@),
{
    match project.file_name() {
        Some(name) => name,
        None => text::owned("Untitled Book"),
    }
}

/// The folder that a book is exported to.
pub open spec fn export_place(directory: path::PathView, title: Seq<char>) -> path::PathView {
    directory.joined("Exports"@).joined(shelf::safe_name(title))
}

/// The files of an exported book, given the body of its HTML.
pub open spec fn exported_files(
    directory: path::PathView,
    title: Seq<char>,
    markdown: Seq<char>,
    body: Seq<char>,
) -> Seq<FileText> {
    let folder = export_place(directory, title);
    seq![
        (folder.joined("manuscript.md"@), markdown),
        (folder.joined("manuscript.html"@), manuscript_html(title, body)),
        (folder.joined("KDP-README.txt"@), EXPORT_NOTE@),
    ]
}

/// The files of an exported book, given the body of its HTML.
pub fn export_files(directory: &NotePath, title: &str, markdown: String, body: &str) -> (files: Vec<
    NewFile,
>)
    ensures
        new_files(files@) == exported_files(directory@, title@, markdown@, body@),
{
    let folder: NotePath = directory.join("Exports").join(shelf::safe_filename(title).as_str());
    let mut files: Vec<NewFile> = Vec::new();
    let page: String = book_page(title, body);
    add_file(&mut files, &folder, "manuscript.md", markdown);
    add_file(&mut files, &folder, "manuscript.html", page);
    add_file(&mut files, &folder, "KDP-README.txt", text::owned(EXPORT_NOTE));
    assert(new_files(files@) == exported_files(directory@, title@, markdown@, body@));
    files
}

/// Makes the files of a book out of its chapters.
pub fn export_book(directory: &NotePath, title: &str, chapters: &Vec<String>) -> (files: Vec<
    NewFile,
>)
    ensures
        ({
            let markdown = manuscript(text::views(chapters@), chapters@.len() as int);
            new_files(files@) == exported_files(
                directory@,
                title@,
                markdown,
                markdown_html(markdown),
            )
        }),
{
    let markdown: String = join_chapters(chapters);
    let body: String = markdown_to_html(markdown.as_str());
    export_files(directory, title, markdown, body.as_str())
}

/// The files of a new book: a title page, a copyright page, a first chapter, and
/// a page about the author.
pub open spec fn project_files(folder: path::PathView, name: Seq<char>) -> Seq<FileText> {
    seq![
        (
            folder.joined("00-title-page.md"@),
            "# "@ + name + "\n\n**Author Name**\n"@,
        ),
        (
            folder.joined("01-copyright.md"@),
            "# Copyright\n\nCopyright © YEAR Author Name\n\nAll rights reserved.\n\nISBN: \n"@,
        ),
        (folder.joined("10-chapter-1.md"@), "# Chapter 1\n\n"@),
        (folder.joined("90-about-the-author.md"@), "# About the Author\n\n"@),
    ]
}

/// The files of a new book, and the chapter to begin with.
pub fn new_project(folder: &NotePath, name: &str) -> (made: (Vec<NewFile>, NotePath))
    ensures
        new_files(made.0@) == project_files(folder@, name@),
        made.1@ == folder@.joined("10-chapter-1.md"@),
{
    let mut files: Vec<NewFile> = Vec::new();
    let mut title: String = text::owned("# ");
    title.append(name);
    title.append("\n\n**Author Name**\n");
    add_file(&mut files, folder, "00-title-page.md", title);
    add_file(
        &mut files,
        folder,
        "01-copyright.md",
        text::owned(
            "# Copyright\n\nCopyright © YEAR Author Name\n\nAll rights reserved.\n\nISBN: \n",
        ),
    );
    add_file(&mut files, folder, "10-chapter-1.md", text::owned("# Chapter 1\n\n"));
    add_file(
        &mut files,
        folder,
        "90-about-the-author.md",
        text::owned("# About the Author\n\n"),
    );
    assert(new_files(files@) == project_files(folder@, name@));
    (files, folder.join("10-chapter-1.md"))
}

/// What a new chapter begins with.
pub fn chapter_text(name: &str) -> (contents: String)
    ensures
        contents@ == "# "@ + name@ + "\n\n"@,
{
    let mut contents: String = text::owned("# ");
    contents.append(name);
    contents.append("\n\n");
    contents
}

/// What is said once a book was begun.
pub fn project_message(name: &str) -> (words: String)
    ensures
        words@ == "book: "@ + name@,
{
    let mut words: String = text::owned("book: ");
    words.append(name);
    words
}

/// What is said once a chapter was begun.
pub fn chapter_message(name: &str) -> (words: String)
    ensures
        words@ == "chapter: "@ + name@,
{
    let mut words: String = text::owned("chapter: ");
    words.append(name);
    words
}

/// A manuscript grows by one chapter after the other: behind all that is there, a
/// rule between two empty lines, the chapter as it is, and a line feed where it
/// does not end with one. The first chapter has no rule before it.
pub proof fn law_a_rule_stands_between_chapters(chapters: Seq<Seq<char>>, index: int)
    requires
        0 <= index < chapters.len(),
    ensures
        manuscript(chapters, 0) == Seq::<char>::empty(),
        ({
            let before = manuscript(chapters, index);
            let after = manuscript(chapters, index + 1);
            let rule = if index > 0 {
                seq!['\n', '\n', '-', '-', '-', '\n', '\n']
            } else {
                Seq::empty()
            };
            let chapter = chapters[index];
            &&& chapter.len() > 0 && chapter.last() == '\n' ==> after == before + rule + chapter
            &&& chapter.len() > 0 && chapter.last() != '\n' ==> after == before + rule + chapter
                + seq!['\n']
        }),
{
    reveal_strlit("\n\n---\n\n");
    assert("\n\n---\n\n"@ == seq!['\n', '\n', '-', '-', '-', '\n', '\n']);
    let before = manuscript(chapters, index);
    let chapter = chapters[index];
    if index == 0 {
        assert(before + Seq::<char>::empty() + chapter == before + chapter);
    }
    let whole = if index > 0 {
        before + "\n\n---\n\n"@ + chapter
    } else {
        before + chapter
    };
    if chapter.len() > 0 {
        assert(whole.last() == chapter.last());
    }
    assert(whole.push('\n') == whole + seq!['\n']);
}

/// A manuscript in HTML holds the title, made safe, once between its title marks,
/// and the body whole.
pub proof fn law_a_page_holds_title_and_body(title: Seq<char>, body: Seq<char>)
    ensures
        text::occurs_in(
            manuscript_html(title, body),
            "<title>"@ + html::escaped(title, false) + "</title>"@,
        ),
        text::occurs_in(manuscript_html(title, body), "<body>\n"@ + body + "\n</body>"@),
        "<!doctype html>"@.is_prefix_of(manuscript_html(title, body)),
{
    reveal_strlit("<title>");
    reveal_strlit("</title>");
    reveal_strlit("<body>\n");
    reveal_strlit("\n</body>");
    reveal_strlit("<!doctype html>");
    reveal_strlit(
        "<!doctype html>\n<html lang=\"en\"><head><meta charset=\"utf-8\"><meta name=\"viewport\" content=\"width=device-width,initial-scale=1\"><title>",
    );
    reveal_strlit(
        "</title><style>body{font-family:serif;line-height:1.5;max-width:42em;margin:auto}h1{page-break-before:always;text-align:center;margin-top:20%}h1:first-child{page-break-before:avoid}hr{page-break-after:always;border:0}p{orphans:2;widows:2}</style></head><body>\n",
    );
    reveal_strlit("\n</body></html>\n");
    let head =
        "<!doctype html>\n<html lang=\"en\"><head><meta charset=\"utf-8\"><meta name=\"viewport\" content=\"width=device-width,initial-scale=1\"><title>"@;
    let style =
        "</title><style>body{font-family:serif;line-height:1.5;max-width:42em;margin:auto}h1{page-break-before:always;text-align:center;margin-top:20%}h1:first-child{page-break-before:avoid}hr{page-break-after:always;border:0}p{orphans:2;widows:2}</style></head><body>\n"@;
    let foot = "\n</body></html>\n"@;
    let name = html::escaped(title, false);
    let whole = manuscript_html(title, body);
    let a = "<title>"@ + name + "</title>"@;
    let at = head.len() - 7;
    assert(whole.subrange(at, at + a.len()) == a);
    assert(text::occurs_at(whole, a, at));
    let b = "<body>\n"@ + body + "\n</body>"@;
    let from = head.len() + name.len() + style.len() - 7;
    assert(whole.subrange(from, from + b.len()) == b);
    assert(text::occurs_at(whole, b, from));
    assert(whole.take(15) == "<!doctype html>"@);
}

/// An exported book lies in a folder of its own below the exports: the manuscript
/// as Markdown just as it was joined, the same as a page, and a note beside them.
pub proof fn law_an_export_holds_the_manuscript(
    directory: path::PathView,
    title: Seq<char>,
    markdown: Seq<char>,
    body: Seq<char>,
)
    ensures
        ({
            let folder = directory.joined("Exports"@).joined(shelf::safe_name(title));
            let files = exported_files(directory, title, markdown, body);
            &&& files.contains((folder.joined("manuscript.md"@), markdown))
            &&& files.contains((folder.joined("manuscript.html"@), manuscript_html(title, body)))
            &&& files.len() == 3
            &&& forall|i: int| 0 <= i < 3 ==> (#[trigger] files[i]).0.parent() == folder
        }),
{
    let folder = directory.joined("Exports"@).joined(shelf::safe_name(title));
    let files = exported_files(directory, title, markdown, body);
    assert(files[0] == (folder.joined("manuscript.md"@), markdown));
    assert(files[1] == (folder.joined("manuscript.html"@), manuscript_html(title, body)));
    assert forall|i: int| 0 <= i < 3 implies (#[trigger] files[i]).0.parent() == folder by {
        path::law_what_is_joined_lies_below(folder, folder, "manuscript.md"@);
        path::law_what_is_joined_lies_below(folder, folder, "manuscript.html"@);
        path::law_what_is_joined_lies_below(folder, folder, "KDP-README.txt"@);
    }
}

/// A book is titled after its folder.
pub proof fn law_a_book_is_named_after_its_folder(shelf_folder: path::PathView, name: Seq<char>)
    requires
        name != ".."@,
    ensures
        title_of(shelf_folder.joined(name)) == name,
{
}

/// A new book begins with four files, which come in this order by name: a page with
/// its title, one for the copyright, its first chapter, and a page about the
/// author.
pub proof fn law_a_new_book_has_four_files(folder: path::PathView, name: Seq<char>)
    ensures
        ({
            let files = project_files(folder, name);
            &&& files.len() == 4
            &&& files[0].0 == folder.joined("00-title-page.md"@)
            &&& files[1].0 == folder.joined("01-copyright.md"@)
            &&& files[2].0 == folder.joined("10-chapter-1.md"@)
            &&& files[3].0 == folder.joined("90-about-the-author.md"@)
            &&& files[0].1 == "# "@ + name + "\n\n**Author Name**\n"@
            &&& text::occurs_in(files[0].1, name)
            &&& files[1].1
                == "# Copyright\n\nCopyright © YEAR Author Name\n\nAll rights reserved.\n\nISBN: \n"@
            &&& files[2].1 == "# Chapter 1\n\n"@
            &&& files[3].1 == "# About the Author\n\n"@
        }),
        ({
            let names = seq![
                "00-title-page.md"@,
                "01-copyright.md"@,
                "10-chapter-1.md"@,
                "90-about-the-author.md"@,
            ];
            forall|i: int, j: int|
                0 <= i < j < 4 ==> text::text_at_most(#[trigger] names[i], #[trigger] names[j], 0)
        }),
{
    let files = project_files(folder, name);
    assert(name.skip(0) == name);
    text::lemma_end_is_inside(name, name);
    text::lemma_inside_stays(name, name, "# "@, Seq::empty());
    text::lemma_inside_stays("# "@ + name, name, Seq::empty(), "\n\n**Author Name**\n"@);
    reveal_strlit("00-title-page.md");
    reveal_strlit("01-copyright.md");
    reveal_strlit("10-chapter-1.md");
    reveal_strlit("90-about-the-author.md");
    let a = "00-title-page.md"@;
    let b = "01-copyright.md"@;
    let c = "10-chapter-1.md"@;
    let d = "90-about-the-author.md"@;
    assert(a.take(1) == b.take(1));
    assert(a.take(0) == c.take(0) && a.take(0) == d.take(0) && b.take(0) == c.take(0) && b.take(0)
        == d.take(0) && c.take(0) == d.take(0));
    text::law_texts_are_ordered_by_their_characters(a, b, 1);
    text::law_texts_are_ordered_by_their_characters(a, c, 0);
    text::law_texts_are_ordered_by_their_characters(a, d, 0);
    text::law_texts_are_ordered_by_their_characters(b, c, 0);
    text::law_texts_are_ordered_by_their_characters(b, d, 0);
    text::law_texts_are_ordered_by_their_characters(c, d, 0);
}

/// Beside an exported book lies a note on what its files are for.
pub proof fn law_an_export_explains_itself(
    directory: path::PathView,
    title: Seq<char>,
    markdown: Seq<char>,
    body: Seq<char>,
)
    ensures
        exported_files(directory, title, markdown, body)[2] == (
            directory.joined("Exports"@).joined(shelf::safe_name(title)).joined(
                "KDP-README.txt"@,
            ),
            "manuscript.html: upload to KDP as a reflowable eBook or no-bleed paperback manuscript.\nmanuscript.md: portable combined source and conversion input.\nAlways inspect the result in Kindle Previewer or KDP Print Previewer before publishing.\n"@,
        ),
{
}

} // verus!
