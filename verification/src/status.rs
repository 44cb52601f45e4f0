//! The words at the edges of the page: the time, the network, the counts.
use vstd::prelude::*;

use crate::app;
use crate::app::App;
use crate::document;
use crate::path;
use crate::path::NotePath;
use crate::text;

verus! {

/// The name of the desk.
pub const APP_NAME: &'static str = "QuietWrite";

/// The version that is running.
pub const VERSION: &'static str = "0.10.0";

/// Whether a text is a time of day: two digits, a colon, two digits.
pub open spec fn is_time(s: Seq<char>) -> bool {
    &&& s.len() == 5
    &&& text::is_digit(s[0])
    &&& text::is_digit(s[1])
    &&& s[2] == ':'
    &&& text::is_digit(s[3])
    &&& text::is_digit(s[4])
}

/// Calls `chrono::Local::now` and formats the time as hours and minutes. Which
/// time it is, is not stated; only the form is.
#[verifier::external_body]
fn local_time() -> (time: String)
    ensures
        is_time(time@),
{
    chrono::Local::now().format("%H:%M").to_string()
}

/// The state of the network in words.
pub open spec fn connection_words(status: u8) -> Seq<char> {
    if status == 2 {
        "● online"@
    } else if status == 1 {
        "○ offline"@
    } else {
        "… checking"@
    }
}

/// The bar with the time, the version and the network.
pub open spec fn info_words(time: Seq<char>, status: u8) -> Seq<char> {
    time + "  ·  v"@ + VERSION@ + "  ·  "@ + connection_words(status)
}

/// Writes the bar for a time.
pub fn info_at(time: &str, status: u8) -> (bar: String)
    ensures
        bar@ == info_words(time@, status),
{
    let mut bar: String = text::owned(time);
    bar.append("  ·  v");
    bar.append(VERSION);
    bar.append("  ·  ");
    match status {
        2 => {
            bar.append("● online");
        },
        1 => {
            bar.append("○ offline");
        },
        _ => {
            bar.append("… checking");
        },
    }
    bar
}

/// The sum of bytes.
pub open spec fn byte_sum(bytes: Seq<u8>, count: int) -> int
    decreases count,
{
    if count <= 0 {
        0
    } else {
        byte_sum(bytes, count - 1) + bytes[count - 1]
    }
}

/// What an empty page says. Each path has its own, by the sum of its bytes.
pub open spec fn blank_words(place: path::PathView) -> Seq<char> {
    let bytes = vstd::utf8::encode_utf8(place.shown());
    let turn = byte_sum(bytes, bytes.len() as int) % 5;
    if turn == 0 {
        "Start anywhere."@
    } else if turn == 1 {
        "Make a little mess."@
    } else if turn == 2 {
        "One true sentence."@
    } else if turn == 3 {
        "What wants saying?"@
    } else {
        "Begin before ready."@
    }
}

/// What the empty page of a note says.
pub fn blank_prompt(place: &NotePath) -> (words: &'static str)
    ensures
        words@ == blank_words(place@),
        words@.len() <= 19,
{
    let bytes: Vec<u8> = text::bytes_of(place.show().as_str());
    let mut sum: u128 = 0;
    let mut i: usize = 0;
    while i < bytes.len()
        invariant
            i <= bytes@.len(),
            sum == byte_sum(bytes@, i as int),
            sum <= 255 * i,
        decreases bytes@.len() - i,
    {
        sum += bytes[i] as u128;
        i += 1;
    }
    proof {
        reveal_strlit("Start anywhere.");
        reveal_strlit("Make a little mess.");
        reveal_strlit("One true sentence.");
        reveal_strlit("What wants saying?");
        reveal_strlit("Begin before ready.");
    }
    match sum % 5 {
        0 => "Start anywhere.",
        1 => "Make a little mess.",
        2 => "One true sentence.",
        3 => "What wants saying?",
        _ => "Begin before ready.",
    }
}

/// The name of a file; other words where it has none.
pub open spec fn name_or(place: path::PathView, other: Seq<char>) -> Seq<char> {
    match place.name() {
        Some(name) => name,
        None => other,
    }
}

pub fn file_name_or(place: &NotePath, other: &str) -> (name: String)
    ensures
        name@ == name_or(place@, other@),
{
    match place.file_name() {
        Some(name) => name,
        None => text::owned(other),
    }
}

/// The words of a text.
pub open spec fn word_total(v: app::AppView) -> nat {
    document::words(v.document.text, v.document.text.len() as int) as nat
}

/// The line under the page on the screen, short where there is little room.
pub open spec fn screen_status(v: app::AppView, columns: int) -> Seq<char> {
    let state = if v.document.dirty {
        "making magic"@
    } else {
        v.message
    };
    let words = text::decimal(word_total(v));
    let chars = text::decimal(v.document.text.len());
    if columns < 36 {
        " ✦ "@ + words + "w · "@ + chars + "c · "@ + state + " "@
    } else {
        " ✦ "@ + name_or(v.path, "note.md"@) + " · "@ + words + " words · "@ + chars + " chars · "@
            + state + " "@
    }
}

/// The line under the page in a plain terminal.
pub open spec fn plain_status(v: app::AppView) -> Seq<char> {
    " "@ + name_or(v.path, "note.md"@) + "  •  "@ + text::decimal(word_total(v)) + " words  •  "@
        + text::decimal(v.document.text.len()) + " chars  •  "@ + (if v.document.dirty {
        "writing"@
    } else {
        "saved"@
    }) + "  •  "@ + v.message + " "@
}

/// The whole minutes between two moments in milliseconds.
pub open spec fn minutes(from: int, to: int) -> int {
    if to > from {
        (to - from) / 60000
    } else {
        0
    }
}

/// The line under the page in a terminal: shelf, name, counts, what the session
/// brought, the target, and what is left of the sprint.
pub open spec fn full_status(v: app::AppView, now: int) -> Seq<char> {
    let category = if v.path.parts.len() > 0 {
        name_or(v.path.parent(), "Notes"@)
    } else {
        "Notes"@
    };
    let words = word_total(v);
    let gained = if words > v.session_initial_words {
        (words - v.session_initial_words) as nat
    } else {
        0
    };
    let target = match v.word_target {
        Some(target) => " • target "@ + text::decimal(target as nat),
        None => Seq::empty(),
    };
    let sprint = match v.sprint_started {
        Some(started) => {
            let gone = minutes(started as int, now);
            " • sprint "@ + text::decimal(
                if gone < 25 {
                    (25 - gone) as nat
                } else {
                    0
                },
            ) + "m"@
        },
        None => Seq::empty(),
    };
    " "@ + category + " / "@ + name_or(v.path, "note.md"@) + "  •  "@ + text::decimal(words)
        + " words / "@ + text::decimal(v.document.text.len()) + " chars  •  +"@ + text::decimal(
        gained,
    ) + " in "@ + text::decimal(minutes(v.session_started, now) as nat) + "m"@ + target + sprint
        + "  •  "@ + (if v.document.dirty {
        "writing"@
    } else {
        v.message
    }) + " "@
}

fn minutes_between(from: u64, to: u64) -> (count: u64)
    ensures
        count == minutes(from as int, to as int),
{
    if to > from {
        (to - from) / 60000
    } else {
        0
    }
}

impl App {
    /// The bar with the time, the version and the network.
    pub fn info_bar(&self) -> (bar: String)
        ensures
            exists|time: Seq<char>|
                is_time(time) && bar@ == info_words(time, self@.network_status),
    {
        let time: String = local_time();
        info_at(time.as_str(), self.network_status)
    }

    /// The line under the page on the screen.
    pub fn screen_status_text(&self, columns: usize) -> (line: String)
        ensures
            line@ == screen_status(self@, columns as int),
    {
        let words: String = text::decimal_text(self.document.word_count() as u128);
        let chars: String = text::decimal_text(self.document.character_count() as u128);
        let mut line: String = text::owned(" ✦ ");
        if columns < 36 {
            line.append(words.as_str());
            line.append("w · ");
            line.append(chars.as_str());
            line.append("c · ");
        } else {
            line.append(file_name_or(&self.path, "note.md").as_str());
            line.append(" · ");
            line.append(words.as_str());
            line.append(" words · ");
            line.append(chars.as_str());
            line.append(" chars · ");
        }
        if self.document.dirty {
            line.append("making magic");
        } else {
            line.append(self.message.as_str());
        }
        line.append(" ");
        line
    }

    /// The line under the page in a plain terminal.
    pub fn plain_status_text(&self) -> (line: String)
        ensures
            line@ == plain_status(self@),
    {
        let mut line: String = text::owned(" ");
        line.append(file_name_or(&self.path, "note.md").as_str());
        line.append("  •  ");
        line.append(text::decimal_text(self.document.word_count() as u128).as_str());
        line.append(" words  •  ");
        line.append(text::decimal_text(self.document.character_count() as u128).as_str());
        line.append(" chars  •  ");
        if self.document.dirty {
            line.append("writing");
        } else {
            line.append("saved");
        }
        line.append("  •  ");
        line.append(self.message.as_str());
        line.append(" ");
        line
    }

    fn folder_name(&self) -> (name: String)
        ensures
            name@ == (if self@.path.parts.len() > 0 {
                name_or(self@.path.parent(), "Notes"@)
            } else {
                "Notes"@
            }),
    {
        match self.path.parent() {
            Some(folder) => file_name_or(&folder, "Notes"),
            None => text::owned("Notes"),
        }
    }

    fn target_text(&self) -> (words: String)
        ensures
            words@ == match self@.word_target {
                Some(target) => " • target "@ + text::decimal(target as nat),
                None => Seq::empty(),
            },
    {
        match self.word_target {
            Some(target) => {
                let mut words: String = text::owned(" • target ");
                words.append(text::decimal_text(target as u128).as_str());
                words
            },
            None => {
                let words = String::new();
                assert(words@ == Seq::<char>::empty());
                words
            },
        }
    }

    fn sprint_text(&self, now: u64) -> (words: String)
        ensures
            words@ == match self@.sprint_started {
                Some(started) => {
                    let gone = minutes(started as int, now as int);
                    " • sprint "@ + text::decimal(
                        if gone < 25 {
                            (25 - gone) as nat
                        } else {
                            0
                        },
                    ) + "m"@
                },
                None => Seq::empty(),
            },
    {
        match self.sprint_started {
            Some(started) => {
                let gone: u64 = minutes_between(started, now);
                let left: u64 = if gone < 25 {
                    25 - gone
                } else {
                    0
                };
                let mut words: String = text::owned(" • sprint ");
                words.append(text::decimal_text(left as u128).as_str());
                words.append("m");
                words
            },
            None => {
                let words = String::new();
                assert(words@ == Seq::<char>::empty());
                words
            },
        }
    }

    /// The line under the page in a terminal.
    pub fn full_status_text(&self, now: u64) -> (line: String)
        ensures
            line@ == full_status(self@, now as int),
    {
        let words: usize = self.document.word_count();
        let gained: usize = if words > self.session_initial_words {
            words - self.session_initial_words
        } else {
            0
        };
        let mut line: String = text::owned(" ");
        line.append(self.folder_name().as_str());
        line.append(" / ");
        line.append(file_name_or(&self.path, "note.md").as_str());
        line.append("  •  ");
        line.append(text::decimal_text(words as u128).as_str());
        line.append(" words / ");
        line.append(text::decimal_text(self.document.character_count() as u128).as_str());
        line.append(" chars  •  +");
        line.append(text::decimal_text(gained as u128).as_str());
        line.append(" in ");
        line.append(
            text::decimal_text(minutes_between(self.session_started, now) as u128).as_str(),
        );
        line.append("m");
        line.append(self.target_text().as_str());
        line.append(self.sprint_text(now).as_str());
        line.append("  •  ");
        if self.document.dirty {
            line.append("writing");
        } else {
            line.append(self.message.as_str());
        }
        line.append(" ");
        line
    }
}

/// Minutes are whole and never more than have passed.
pub proof fn law_minutes_are_whole(from: int, to: int)
    ensures
        minutes(from, to) >= 0,
        to >= from ==> 60000 * minutes(from, to) <= to - from < 60000 * (minutes(from, to) + 1),
        to <= from ==> minutes(from, to) == 0,
{
}

/// The bar begins with the time and names the version and the state of the
/// network, which is told in other words for each of its states.
pub proof fn law_the_bar_names_time_version_and_network(time: Seq<char>, a: u8, b: u8)
    ensures
        time.is_prefix_of(info_words(time, a)),
        text::occurs_in(info_words(time, a), "v0.10.0"@),
        connection_words(2).is_suffix_of(info_words(time, 2)),
        connection_words(a).is_suffix_of(info_words(time, a)),
        text::occurs_in(connection_words(2), "online"@),
        text::occurs_in(connection_words(1), "offline"@),
        text::occurs_in(connection_words(0), "checking"@),
        a <= 2 && b <= 2 && a != b ==> connection_words(a) != connection_words(b),
        a > 2 ==> connection_words(a) == connection_words(0),
{
    reveal_strlit("● online");
    reveal_strlit("○ offline");
    reveal_strlit("… checking");
    reveal_strlit("online");
    reveal_strlit("offline");
    reveal_strlit("checking");
    reveal_strlit("  ·  v");
    reveal_strlit("  ·  ");
    reveal_strlit("0.10.0");
    reveal_strlit("v0.10.0");
    let bar = info_words(time, a);
    assert(bar.take(time.len() as int) == time);
    let at = time.len() as int + 5;
    assert(bar.subrange(at, at + 7) == "v0.10.0"@);
    assert(text::occurs_at(bar, "v0.10.0"@, at));
    let words = connection_words(a);
    assert(bar.skip(bar.len() - words.len()) == words);
    let on = info_words(time, 2);
    assert(on.skip(on.len() - connection_words(2).len()) == connection_words(2));
    assert(connection_words(2).subrange(2, 8) == "online"@);
    assert(text::occurs_at(connection_words(2), "online"@, 2));
    assert(connection_words(1).subrange(2, 9) == "offline"@);
    assert(text::occurs_at(connection_words(1), "offline"@, 2));
    assert(connection_words(0).subrange(2, 10) == "checking"@);
    assert(text::occurs_at(connection_words(0), "checking"@, 2));
    assert(connection_words(2).len() == 8 && connection_words(1).len() == 9
        && connection_words(0).len() == 10);
}

proof fn lemma_pair_at_end(before: Seq<char>, a: Seq<char>, b: Seq<char>)
    ensures
        text::occurs_in(before + a + b, a + b),
        text::occurs_in(before + a, a),
{
    let whole = before + a + b;
    let at = before.len() as int;
    assert(whole.subrange(at, at + (a + b).len()) == a + b);
    assert(text::occurs_at(whole, a + b, at));
    assert((before + a).subrange(at, at + a.len()) == a);
    assert(text::occurs_at(before + a, a, at));
}

proof fn lemma_stays_in(whole: Seq<char>, more: Seq<char>, part: Seq<char>)
    requires
        text::occurs_in(whole, part),
    ensures
        text::occurs_in(whole + more, part),
{
    let at = choose|at: int| text::occurs_at(whole, part, at);
    assert((whole + more).subrange(at, at + part.len()) == whole.subrange(at, at + part.len()));
    assert(text::occurs_at(whole + more, part, at));
}

/// The line under the page tells how many words and characters the text has, and,
/// where there is room, the name of the note; it says at the end whether the text
/// was saved, in the words of the last message.
pub proof fn law_the_status_counts_the_text(v: app::AppView, columns: int)
    ensures
        ({
            let words = text::decimal(
                document::words(v.document.text, v.document.text.len() as int) as nat,
            );
            let chars = text::decimal(v.document.text.len());
            let line = screen_status(v, columns);
            &&& columns >= 36 ==> text::occurs_in(line, words + " words · "@) && text::occurs_in(
                line,
                chars + " chars · "@,
            ) && text::occurs_in(line, name_or(v.path, "note.md"@))
            &&& columns < 36 ==> text::occurs_in(line, words + "w · "@) && text::occurs_in(
                line,
                chars + "c · "@,
            )
            &&& !v.document.dirty ==> text::occurs_in(line, v.message)
            &&& v.document.dirty ==> text::occurs_in(line, "making magic"@)
        }),
{
    let words = text::decimal(word_total(v));
    let chars = text::decimal(v.document.text.len());
    let name = name_or(v.path, "note.md"@);
    let state = if v.document.dirty {
        "making magic"@
    } else {
        v.message
    };
    if columns < 36 {
        let a = " ✦ "@ + words + "w · "@;
        let b = a + chars + "c · "@;
        lemma_pair_at_end(" ✦ "@, words, "w · "@);
        lemma_pair_at_end(a, chars, "c · "@);
        lemma_stays_in(a, chars, words + "w · "@);
        lemma_stays_in(a + chars, "c · "@, words + "w · "@);
        lemma_pair_at_end(b, state, " "@);
        lemma_stays_in(b, state, words + "w · "@);
        lemma_stays_in(b, state, chars + "c · "@);
        lemma_stays_in(b + state, " "@, words + "w · "@);
        lemma_stays_in(b + state, " "@, chars + "c · "@);
        lemma_stays_in(b + state, " "@, state);
    } else {
        let n = " ✦ "@ + name;
        let h = n + " · "@;
        let a = h + words + " words · "@;
        let b = a + chars + " chars · "@;
        lemma_pair_at_end(" ✦ "@, name, " · "@);
        lemma_stays_in(n, " · "@, name);
        lemma_pair_at_end(h, words, " words · "@);
        lemma_stays_in(h, words, name);
        lemma_stays_in(h + words, " words · "@, name);
        lemma_pair_at_end(a, chars, " chars · "@);
        lemma_stays_in(a, chars, name);
        lemma_stays_in(a + chars, " chars · "@, name);
        lemma_stays_in(a, chars, words + " words · "@);
        lemma_stays_in(a + chars, " chars · "@, words + " words · "@);
        lemma_pair_at_end(b, state, " "@);
        lemma_stays_in(b, state, name);
        lemma_stays_in(b, state, words + " words · "@);
        lemma_stays_in(b, state, chars + " chars · "@);
        lemma_stays_in(b + state, " "@, name);
        lemma_stays_in(b + state, " "@, words + " words · "@);
        lemma_stays_in(b + state, " "@, chars + " chars · "@);
        lemma_stays_in(b + state, " "@, state);
    }
}

/// The line under the page in a plain terminal tells the same, and whether the
/// text is being written or saved.
pub proof fn law_the_plain_status_counts_the_text(v: app::AppView)
    ensures
        ({
            let words = text::decimal(
                document::words(v.document.text, v.document.text.len() as int) as nat,
            );
            let chars = text::decimal(v.document.text.len());
            let line = plain_status(v);
            &&& text::occurs_in(line, words + " words  •  "@)
            &&& text::occurs_in(line, chars + " chars  •  "@)
            &&& v.document.dirty ==> text::occurs_in(line, "writing"@)
            &&& !v.document.dirty ==> text::occurs_in(line, "saved"@)
            &&& text::occurs_in(line, v.message)
        }),
{
    let words = text::decimal(word_total(v));
    let chars = text::decimal(v.document.text.len());
    let saved = if v.document.dirty {
        "writing"@
    } else {
        "saved"@
    };
    let h = " "@ + name_or(v.path, "note.md"@) + "  •  "@;
    let a = h + words + " words  •  "@;
    let b = a + chars + " chars  •  "@;
    let c = b + saved;
    let d = c + "  •  "@;
    let w = words + " words  •  "@;
    let k = chars + " chars  •  "@;
    lemma_pair_at_end(h, words, " words  •  "@);
    lemma_pair_at_end(a, chars, " chars  •  "@);
    lemma_stays_in(a, chars, w);
    lemma_stays_in(a + chars, " chars  •  "@, w);
    lemma_pair_at_end(b, saved, "  •  "@);
    lemma_stays_in(b, saved, w);
    lemma_stays_in(b, saved, k);
    lemma_stays_in(c, "  •  "@, w);
    lemma_stays_in(c, "  •  "@, k);
    lemma_stays_in(c, "  •  "@, saved);
    lemma_pair_at_end(d, v.message, " "@);
    lemma_stays_in(d, v.message, w);
    lemma_stays_in(d, v.message, k);
    lemma_stays_in(d, v.message, saved);
    lemma_stays_in(d + v.message, " "@, w);
    lemma_stays_in(d + v.message, " "@, k);
    lemma_stays_in(d + v.message, " "@, saved);
    lemma_stays_in(d + v.message, " "@, v.message);
}

/// The line under the page in a terminal counts the words and the characters.
pub proof fn law_the_full_status_counts_the_text(v: app::AppView, now: int)
    ensures
        ({
            let line = full_status(v, now);
            let words = text::decimal(
                document::words(v.document.text, v.document.text.len() as int) as nat,
            );
            &&& text::occurs_in(line, words + " words / "@)
            &&& text::occurs_in(
                line,
                text::decimal(v.document.text.len()) + " chars  •  +"@,
            )
        }),
{
    let parts = full_parts(v, now);
    let words = text::decimal(word_total(v));
    let chars = text::decimal(v.document.text.len());
    let h = full_head(v);
    let a = h + words + " words / "@;
    let b = a + chars + " chars  •  +"@;
    let w = words + " words / "@;
    let c = chars + " chars  •  +"@;
    lemma_pair_at_end(h, words, " words / "@);
    lemma_pair_at_end(a, chars, " chars  •  +"@);
    lemma_stays_in(a, chars, w);
    lemma_stays_in(a + chars, " chars  •  +"@, w);
    let rest = seq![parts.0, " in "@, parts.1, "m"@, parts.2, parts.3, "  •  "@, parts.4, " "@];
    lemma_chain(b, rest, 9, w);
    lemma_chain(b, rest, 9, c);
    lemma_full_status(v, now);
}

/// It counts the words that the session brought, from those at its beginning on,
/// and its minutes.
pub proof fn law_the_full_status_counts_the_session(v: app::AppView, now: int)
    requires
        0 <= v.session_initial_words,
    ensures
        ({
            let count = document::words(v.document.text, v.document.text.len() as int);
            let line = full_status(v, now);
            let gained: nat = if count > v.session_initial_words {
                (count - v.session_initial_words) as nat
            } else {
                0
            };
            &&& text::occurs_in(line, text::decimal(gained) + " in "@)
            &&& text::occurs_in(
                line,
                text::decimal(minutes(v.session_started, now) as nat) + "m"@,
            )
        }),
{
    document::lemma_words_bounds(v.document.text, v.document.text.len() as int);
    let parts = full_parts(v, now);
    let b = full_head(v) + text::decimal(word_total(v)) + " words / "@ + text::decimal(
        v.document.text.len(),
    ) + " chars  •  +"@;
    lemma_pair_at_end(b, parts.0, " in "@);
    let d = b + parts.0 + " in "@;
    lemma_pair_at_end(d, parts.1, "m"@);
    lemma_stays_in(d, parts.1, parts.0 + " in "@);
    lemma_stays_in(d + parts.1, "m"@, parts.0 + " in "@);
    let e = d + parts.1 + "m"@;
    let rest = seq![parts.2, parts.3, "  •  "@, parts.4, " "@];
    lemma_chain(e, rest, 5, parts.0 + " in "@);
    lemma_chain(e, rest, 5, parts.1 + "m"@);
    lemma_full_status(v, now);
    lemma_chain_end(v, now);
}

/// It tells the target, if there is one, how many of the twenty-five minutes of a
/// sprint are left, and at the end the last message, or that the text is being
/// written.
pub proof fn law_the_full_status_tells_target_and_sprint(v: app::AppView, now: int)
    ensures
        ({
            let line = full_status(v, now);
            &&& v.word_target matches Some(target) ==> text::occurs_in(
                line,
                " • target "@ + text::decimal(target as nat),
            )
            &&& v.sprint_started matches Some(started) ==> {
                let gone = minutes(started as int, now);
                let left: nat = if gone < 25 {
                    (25 - gone) as nat
                } else {
                    0
                };
                text::occurs_in(line, " • sprint "@ + text::decimal(left) + "m"@)
            }
            &&& v.document.dirty ==> text::occurs_in(line, "writing"@)
            &&& !v.document.dirty ==> text::occurs_in(line, v.message)
        }),
{
    let parts = full_parts(v, now);
    let e = full_head(v) + text::decimal(word_total(v)) + " words / "@ + text::decimal(
        v.document.text.len(),
    ) + " chars  •  +"@ + parts.0 + " in "@ + parts.1 + "m"@;
    lemma_pair_at_end(e, parts.2, parts.3);
    lemma_stays_in(e + parts.2, parts.3, parts.2);
    lemma_pair_at_end(e + parts.2, parts.3, "  •  "@);
    let f = e + parts.2 + parts.3;
    let rest = seq!["  •  "@, parts.4, " "@];
    lemma_chain(f, rest, 3, parts.2);
    lemma_chain(f, rest, 3, parts.3);
    lemma_pair_at_end(f + "  •  "@, parts.4, " "@);
    lemma_stays_in(f + "  •  "@ + parts.4, " "@, parts.4);
    lemma_full_status(v, now);
    reveal_with_fuel(chained, 4);
    assert(rest[0] == "  •  "@ && rest[1] == parts.4 && rest[2] == " "@);
}

/// A text with the first `count` of further texts behind it.
spec fn chained(start: Seq<char>, rest: Seq<Seq<char>>, count: int) -> Seq<char>
    decreases count,
{
    if count <= 0 {
        start
    } else {
        chained(start, rest, count - 1) + rest[count - 1]
    }
}

proof fn lemma_chain(start: Seq<char>, rest: Seq<Seq<char>>, count: int, part: Seq<char>)
    requires
        text::occurs_in(start, part),
    ensures
        text::occurs_in(chained(start, rest, count), part),
    decreases count,
{
    if count > 0 {
        lemma_chain(start, rest, count - 1, part);
        lemma_stays_in(chained(start, rest, count - 1), rest[count - 1], part);
    }
}

spec fn full_head(v: app::AppView) -> Seq<char> {
    " "@ + (if v.path.parts.len() > 0 {
        name_or(v.path.parent(), "Notes"@)
    } else {
        "Notes"@
    }) + " / "@ + name_or(v.path, "note.md"@) + "  •  "@
}

spec fn full_parts(v: app::AppView, now: int) -> (
    Seq<char>,
    Seq<char>,
    Seq<char>,
    Seq<char>,
    Seq<char>,
) {
    let words = word_total(v);
    (
        text::decimal(
            if words > v.session_initial_words {
                (words - v.session_initial_words) as nat
            } else {
                0
            },
        ),
        text::decimal(minutes(v.session_started, now) as nat),
        match v.word_target {
            Some(target) => " • target "@ + text::decimal(target as nat),
            None => Seq::empty(),
        },
        match v.sprint_started {
            Some(started) => {
                let gone = minutes(started as int, now);
                " • sprint "@ + text::decimal(
                    if gone < 25 {
                        (25 - gone) as nat
                    } else {
                        0
                    },
                ) + "m"@
            },
            None => Seq::empty(),
        },
        if v.document.dirty {
            "writing"@
        } else {
            v.message
        },
    )
}

proof fn lemma_full_status(v: app::AppView, now: int)
    ensures
        ({
            let parts = full_parts(v, now);
            let b = full_head(v) + text::decimal(word_total(v)) + " words / "@ + text::decimal(
                v.document.text.len(),
            ) + " chars  •  +"@;
            let rest = seq![
                parts.0,
                " in "@,
                parts.1,
                "m"@,
                parts.2,
                parts.3,
                "  •  "@,
                parts.4,
                " "@,
            ];
            full_status(v, now) == chained(b, rest, 9)
        }),
{
    reveal_with_fuel(chained, 10);
}

proof fn lemma_chain_end(v: app::AppView, now: int)
    ensures
        ({
            let parts = full_parts(v, now);
            let e = full_head(v) + text::decimal(word_total(v)) + " words / "@ + text::decimal(
                v.document.text.len(),
            ) + " chars  •  +"@ + parts.0 + " in "@ + parts.1 + "m"@;
            let rest = seq![parts.2, parts.3, "  •  "@, parts.4, " "@];
            full_status(v, now) == chained(e, rest, 5)
        }),
{
    reveal_with_fuel(chained, 6);
}

/// What an empty page says goes by the bytes of the way to its note, summed up: with
/// every byte more by one it says the next of five things.
pub proof fn law_an_empty_page_has_its_words(place: path::PathView, round: int)
    ensures
        ({
            let bytes = vstd::utf8::encode_utf8(place.shown());
            let sum = byte_sum(bytes, bytes.len() as int);
            &&& sum == 5 * round ==> blank_words(place) == "Start anywhere."@
            &&& sum == 5 * round + 1 ==> blank_words(place) == "Make a little mess."@
            &&& sum == 5 * round + 2 ==> blank_words(place) == "One true sentence."@
            &&& sum == 5 * round + 3 ==> blank_words(place) == "What wants saying?"@
            &&& sum == 5 * round + 4 ==> blank_words(place) == "Begin before ready."@
        }),
{
}

/// Bytes are summed up one by one.
pub proof fn law_bytes_are_summed_up(bytes: Seq<u8>, count: int)
    requires
        0 <= count < bytes.len(),
    ensures
        byte_sum(bytes, 0) == 0,
        byte_sum(bytes, count + 1) == byte_sum(bytes, count) + bytes[count],
{
}

/// A note is called by its last name.
pub proof fn law_notes_are_called_by_their_names(
    folder: path::PathView,
    name: Seq<char>,
    other: Seq<char>,
)
    requires
        name != ".."@,
    ensures
        name_or(folder.joined(name), other) == name,
        folder.parts.len() == 0 ==> name_or(folder, other) == other,
{
    assert(folder.joined(name).parts.last() == name);
}

} // verus!
