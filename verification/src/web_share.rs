//! The read-only library on the local network: who may read, which notes are
//! shown, and the pages they are shown on.
use vstd::prelude::*;

use crate::hex;
use crate::html;
use crate::order;
use crate::order::Ranked;
use crate::path;
use crate::path::NotePath;
use crate::shelf;
use crate::shelf::FileEntry;
use crate::text;
use crate::vault;

verus! {

/// What the desk shows of the library on the network.
#[derive(Debug, PartialEq, Eq)]
pub struct ShareState {
    pub running: bool,
    pub starting: bool,
    pub url: String,
    pub code: String,
    pub message: String,
}

/// What the desk shows of the library, as a mathematical value.
#[verifier::ext_equal]
pub struct ShareView {
    pub running: bool,
    pub starting: bool,
    pub url: Seq<char>,
    pub code: Seq<char>,
    pub message: Seq<char>,
}

impl View for ShareState {
    type V = ShareView;

    open spec fn view(&self) -> ShareView {
        ShareView {
            running: self.running,
            starting: self.starting,
            url: self.url@,
            code: self.code@,
            message: self.message@,
        }
    }
}

/// The library before it is started.
pub open spec fn share_off() -> ShareView {
    ShareView {
        running: false,
        starting: false,
        url: Seq::empty(),
        code: Seq::empty(),
        message: "Wi-Fi sharing is off"@,
    }
}

impl Default for ShareState {
    fn default() -> (state: ShareState)
        ensures
            state@ == share_off(),
    {
        ShareState {
            running: false,
            starting: false,
            url: String::new(),
            code: String::new(),
            message: text::owned("Wi-Fi sharing is off"),
        }
    }
}

impl Clone for ShareState {
    fn clone(&self) -> (copy: ShareState)
        ensures
            copy@ == self@,
    {
        ShareState {
            running: self.running,
            starting: self.starting,
            url: text::owned(self.url.as_str()),
            code: text::owned(self.code.as_str()),
            message: text::owned(self.message.as_str()),
        }
    }
}

/// The library: what is shown of it, whether it is to stop, and how often it was
/// started or stopped.
#[derive(Debug)]
pub struct WebShare {
    pub state: ShareState,
    pub stop: bool,
    pub generation: u64,
}

/// A session of the library: which start it belongs to, the code to type, and
/// the key that a browser gets for it.
#[derive(Debug)]
pub struct Session {
    pub generation: u64,
    pub code: String,
    pub session_key: String,
}

/// The library after no code, or no key, could be drawn.
pub open spec fn not_started(state: ShareView, code: bool, why: Seq<char>) -> ShareView {
    ShareView {
        message: if code {
            "Could not create a secure access code: "@ + why
        } else {
            "Could not create a secure browser session: "@ + why
        },
        ..state
    }
}

/// What was drawn, or why it could not be, as a mathematical value.
pub open spec fn draw_view(draw: Result<String, String>) -> Result<Seq<char>, Seq<char>> {
    match draw {
        Ok(drawn) => Ok(drawn@),
        Err(why) => Err(why@),
    }
}

/// What is shown of the library once a code and a key were drawn for it, or one of
/// them could not be.
pub open spec fn begun(
    state: ShareView,
    url: Seq<char>,
    code: Result<Seq<char>, Seq<char>>,
    session_key: Result<Seq<char>, Seq<char>>,
) -> ShareView {
    match (code, session_key) {
        (Err(why), _) => not_started(state, true, why),
        (Ok(_), Err(why)) => not_started(state, false, why),
        (Ok(drawn), Ok(_)) => ShareView {
            running: false,
            starting: true,
            url,
            code: drawn,
            message: "Starting read-only Wi-Fi library…"@,
        },
    }
}

/// The number that follows, beginning anew past the largest.
pub open spec fn next_generation(generation: u64) -> u64 {
    if generation == u64::MAX {
        0
    } else {
        (generation + 1) as u64
    }
}

fn count_up(generation: u64) -> (next: u64)
    ensures
        next == next_generation(generation),
{
    if generation == u64::MAX {
        0
    } else {
        generation + 1
    }
}

impl WebShare {
    /// Whether a session is the one that is served.
    pub open spec fn lives(self, generation: u64) -> bool {
        generation == self.generation && !self.stop
    }

    /// Whether a session is to go on: it is the one started last, and it was not
    /// stopped.
    pub fn goes_on(&self, generation: u64) -> (yes: bool)
        ensures
            yes == (generation == self.generation && !self.stop),
            yes == self.lives(generation),
    {
        generation == self.generation && !self.stop
    }

    /// A library that is off.
    pub fn new() -> (share: WebShare)
        ensures
            share.state@ == share_off(),
            !share.stop,
            share.generation == 0,
    {
        WebShare { state: ShareState::default(), stop: false, generation: 0 }
    }

    /// What is shown of the library.
    pub fn snapshot(&self) -> (state: ShareState)
        ensures
            state@ == self.state@,
    {
        self.state.clone()
    }

    /// Sets the library up for a session with a given code and key.
    pub fn begin(&mut self, code: String, session_key: String, url: &str) -> (session: Session)
        ensures
            session.generation == old(self).generation,
            session.code@ == code@,
            session.session_key@ == session_key@,
            final(self).generation == old(self).generation,
            final(self).stop == old(self).stop,
            final(self).state@ == (ShareView {
                running: false,
                starting: true,
                url: url@,
                code: code@,
                message: "Starting read-only Wi-Fi library…"@,
            }),
    {
        self.state.starting = true;
        self.state.running = false;
        self.state.url = text::owned(url);
        self.state.code = text::owned(code.as_str());
        self.state.message = text::owned("Starting read-only Wi-Fi library…");
        Session { generation: self.generation, code, session_key }
    }

    /// Starts a session with a code and a key that were drawn, unless one is
    /// running or starting; says why not where one of them could not be drawn.
    pub fn start_with_draws(
        &mut self,
        url: &str,
        code: Result<String, String>,
        session_key: Result<String, String>,
    ) -> (session: Option<Session>)
        ensures
            old(self).state@.running || old(self).state@.starting ==> session is None
                && *final(self) == *old(self),
            !old(self).state@.running && !old(self).state@.starting ==> {
                &&& final(self).generation == next_generation(old(self).generation)
                &&& !final(self).stop
                &&& final(self).state@ == begun(
                    old(self).state@,
                    url@,
                    draw_view(code),
                    draw_view(session_key),
                )
                &&& match session {
                    Some(s) => s.generation == final(self).generation && (code matches Ok(drawn)
                        && s.code@ == drawn@) && (session_key matches Ok(drawn) && s.session_key@
                        == drawn@),
                    None => code is Err || session_key is Err,
                }
            },
    {
        if self.state.running || self.state.starting {
            return None;
        }
        self.generation = count_up(self.generation);
        self.stop = false;
        match code {
            Ok(drawn) => match session_key {
                Ok(key) => Some(self.begin(drawn, key, url)),
                Err(error) => {
                    let mut message: String = text::owned(
                        "Could not create a secure browser session: ",
                    );
                    message.append(error.as_str());
                    self.state.message = message;
                    None
                },
            },
            Err(error) => {
                let mut message: String = text::owned("Could not create a secure access code: ");
                message.append(error.as_str());
                self.state.message = message;
                None
            },
        }
    }

    /// Starts a session, unless one is running or starting. The code and the key
    /// are drawn anew each time. Where none was started, a draw failed, and the
    /// library says which.
    pub fn start(&mut self, url: &str) -> (session: Option<Session>)
        ensures
            old(self).state@.running || old(self).state@.starting ==> session is None
                && final(self).state@ == old(self).state@ && final(self).stop == old(self).stop
                && final(self).generation == old(self).generation,
            !old(self).state@.running && !old(self).state@.starting ==> {
                &&& final(self).generation == next_generation(old(self).generation)
                &&& !final(self).stop
                &&& match session {
                    Some(s) => s.generation == final(self).generation && final(self).lives(
                        s.generation,
                    ) && is_access_code(s.code@)
                        && is_session_key(s.session_key@) && final(self).state@ == (ShareView {
                        running: false,
                        starting: true,
                        url: url@,
                        code: s.code@,
                        message: "Starting read-only Wi-Fi library…"@,
                    }),
                    None => exists|
                        code: Result<Seq<char>, Seq<char>>,
                        session_key: Result<Seq<char>, Seq<char>>,
                    |
                        (code is Err || session_key is Err) && (code matches Err(why) ==> why.len()
                            > 0) && (session_key matches Err(why) ==> why.len() > 0)
                            && final(self).state@ == #[trigger] begun(old(self).state@, url@, code, session_key),
                }
            },
    {
        if self.state.running || self.state.starting {
            return None;
        }
        let code: Result<String, String> = random_access_code();
        let session_key: Result<String, String> = random_session_key();
        let ghost drawn = (draw_view(code), draw_view(session_key));
        let session: Option<Session> = self.start_with_draws(url, code, session_key);
        assert(self.state@ == begun(old(self).state@, url@, drawn.0, drawn.1));
        session
    }

    /// The server answers now.
    pub fn serving(&mut self)
        ensures
            final(self).state@ == (ShareView {
                starting: false,
                running: true,
                message: "Read-only library is available on the local network"@,
                ..old(self).state@
            }),
            final(self).stop == old(self).stop,
            final(self).generation == old(self).generation,
    {
        self.state.starting = false;
        self.state.running = true;
        self.state.message = text::owned("Read-only library is available on the local network");
    }

    /// The server of a session has ended, with an error or without. One that was
    /// started or stopped since changes nothing.
    pub fn ended(&mut self, generation: u64, error: Option<&str>)
        ensures
            final(self).state@ == if generation != old(self).generation {
                old(self).state@
            } else {
                ShareView {
                    running: false,
                    starting: false,
                    message: match error {
                        Some(why) => "Could not start Wi-Fi sharing: "@ + why@,
                        None => if old(self).stop {
                            "Wi-Fi sharing stopped"@
                        } else {
                            "Wi-Fi sharing ended"@
                        },
                    },
                    code: if old(self).stop {
                        old(self).state@.code
                    } else {
                        Seq::empty()
                    },
                    ..old(self).state@
                }
            },
            final(self).stop == old(self).stop,
            final(self).generation == old(self).generation,
    {
        if generation != self.generation {
            return;
        }
        self.state.running = false;
        self.state.starting = false;
        match error {
            Some(why) => {
                let mut message: String = text::owned("Could not start Wi-Fi sharing: ");
                message.append(why);
                self.state.message = message;
            },
            None => {
                if self.stop {
                    self.state.message = text::owned("Wi-Fi sharing stopped");
                } else {
                    self.state.message = text::owned("Wi-Fi sharing ended");
                }
            },
        }
        if !self.stop {
            self.state.code = String::new();
        }
    }

    /// Stops the library; its code is gone.
    pub fn stop(&mut self)
        ensures
            final(self).stop,
            final(self).generation == next_generation(old(self).generation),
            forall|generation: u64| !#[trigger] final(self).lives(generation),
            final(self).state@ == (ShareView {
                running: false,
                starting: false,
                code: Seq::empty(),
                message: "Wi-Fi sharing stopped"@,
                ..old(self).state@
            }),
    {
        self.stop = true;
        self.generation = count_up(self.generation);
        self.state.running = false;
        self.state.starting = false;
        self.state.code = String::new();
        self.state.message = text::owned("Wi-Fi sharing stopped");
    }
}

/// The number of the library after it was started or stopped some times more.
pub open spec fn generation_after(generation: u64, turns: nat) -> u64
    decreases turns,
{
    if turns == 0 {
        generation
    } else {
        next_generation(generation_after(generation, (turns - 1) as nat))
    }
}

proof fn lemma_generations_grow(generation: u64, turns: nat)
    requires
        generation + turns <= u64::MAX,
    ensures
        generation_after(generation, turns) == generation + turns,
    decreases turns,
{
    if turns > 0 {
        lemma_generations_grow(generation, (turns - 1) as nat);
    }
}

/// A session ends with the next start or stop, and never comes back: however
/// often the library is started and stopped from then on, none of the sessions
/// up to then is served, as long as the numbers last.
pub proof fn law_an_ended_session_stays_ended(
    before: WebShare,
    after: WebShare,
    session: u64,
    turns: nat,
)
    requires
        session <= before.generation,
        turns > 0,
        before.generation + turns <= u64::MAX,
        after.generation == generation_after(before.generation, turns),
    ensures
        !after.lives(session),
{
    lemma_generations_grow(before.generation, turns);
}

/// The characters of an access code: capital letters and digits, without those
/// that are easily confused.
pub open spec fn alphabet() -> Seq<char> {
    "ABCDEFGHJKLMNPQRSTUVWXYZ23456789"@
}

/// The code that eight bytes make: a character for each, and a dash in the
/// middle.
pub open spec fn code_of(bytes: Seq<u8>) -> Seq<char> {
    Seq::new(
        9,
        |i: int|
            if i == 4 {
                '-'
            } else if i < 4 {
                alphabet()[bytes[i] as int % 32]
            } else {
                alphabet()[bytes[i - 1] as int % 32]
            },
    )
}

/// Whether a text is a code that some eight bytes make.
pub open spec fn is_access_code(code: Seq<char>) -> bool {
    exists|bytes: Seq<u8>| bytes.len() == 8 && code == code_of(bytes)
}

/// Whether a text is the hexadecimal form of some twenty-four bytes.
pub open spec fn is_session_key(key: Seq<char>) -> bool {
    exists|bytes: Seq<u8>| bytes.len() == 24 && key == hex::hex_text(bytes)
}

/// The code that eight bytes make.
pub fn access_code(bytes: &Vec<u8>) -> (code: String)
    requires
        bytes@.len() == 8,
    ensures
        code@ == code_of(bytes@),
{
    let letters: Vec<char> = text::chars_of("ABCDEFGHJKLMNPQRSTUVWXYZ23456789");
    proof {
        reveal_strlit("ABCDEFGHJKLMNPQRSTUVWXYZ23456789");
    }
    let mut code = String::new();
    let mut i: usize = 0;
    assert(code@ == code_of(bytes@).take(0));
    while i < 8
        invariant
            i <= 8,
            bytes@.len() == 8,
            letters@ == alphabet(),
            letters@.len() == 32,
            code@ == code_of(bytes@).take(
                if i <= 4 {
                    i as int
                } else {
                    i + 1
                },
            ),
        decreases 8 - i,
    {
        if i == 4 {
            code.push('-');
        }
        code.push(letters[bytes[i] as usize % 32]);
        i += 1;
        assert(code@ == code_of(bytes@).take(
            if i <= 4 {
                i as int
            } else {
                i + 1
            },
        ));
    }
    assert(code_of(bytes@).take(9) == code_of(bytes@));
    code
}

/// The access code that a draw of eight bytes makes; a failed draw stays one.
pub fn access_code_of(draw: Result<Vec<u8>, String>) -> (code: Result<String, String>)
    requires
        draw matches Ok(bytes) ==> bytes@.len() == 8,
    ensures
        match draw {
            Ok(bytes) => code matches Ok(made) && made@ == code_of(bytes@),
            Err(error) => code == Err::<String, String>(error),
        },
{
    match draw {
        Ok(bytes) => Ok(access_code(&bytes)),
        Err(error) => Err(error),
    }
}

/// The key of a session that a draw of bytes makes; a failed draw stays one.
pub fn session_key_of(draw: Result<Vec<u8>, String>) -> (key: Result<String, String>)
    ensures
        match draw {
            Ok(bytes) => key matches Ok(made) && made@ == hex::hex_text(bytes@),
            Err(error) => key == Err::<String, String>(error),
        },
{
    match draw {
        Ok(bytes) => Ok(hex::hex_encode(bytes.as_slice())),
        Err(error) => Err(error),
    }
}

/// Draws an access code at random. Whether there is one is up to the system's
/// source of randomness.
pub fn random_access_code() -> (code: Result<String, String>)
    ensures
        code matches Ok(drawn) ==> is_access_code(drawn@),
        code matches Err(why) ==> why@.len() > 0,
{
    let draw: Result<Vec<u8>, String> = vault::random_bytes(8);
    let ghost drawn = draw;
    let code: Result<String, String> = access_code_of(draw);
    proof {
        if let Ok(bytes) = drawn {
            assert(bytes@.len() == 8 && code->Ok_0@ == code_of(bytes@));
        }
    }
    code
}

/// Draws the key of a session at random. Whether there is one is up to the
/// system's source of randomness.
pub fn random_session_key() -> (key: Result<String, String>)
    ensures
        key matches Ok(drawn) ==> is_session_key(drawn@),
        key matches Err(why) ==> why@.len() > 0,
{
    let draw: Result<Vec<u8>, String> = vault::random_bytes(24);
    let ghost drawn = draw;
    let key: Result<String, String> = session_key_of(draw);
    proof {
        if let Ok(bytes) = drawn {
            assert(bytes@.len() == 24 && key->Ok_0@ == hex::hex_text(bytes@));
        }
    }
    key
}

/// An access code has nine characters: a dash in the middle, and capital letters
/// and digits beside it.
pub proof fn law_access_codes_are_readable(code: Seq<char>, i: int)
    requires
        is_access_code(code),
        0 <= i < code.len(),
    ensures
        code.len() == 9,
        i == 4 ==> code[i] == '-',
        i != 4 ==> ('A' <= code[i] <= 'Z' || '2' <= code[i] <= '9') && code[i] != 'I' && code[i]
            != 'O',
{
    reveal_strlit("ABCDEFGHJKLMNPQRSTUVWXYZ23456789");
    let bytes = choose|bytes: Seq<u8>| bytes.len() == 8 && code == code_of(bytes);
    assert(code == code_of(bytes));
    if i != 4 {
        let k = if i < 4 {
            bytes[i] as int % 32
        } else {
            bytes[i - 1] as int % 32
        };
        assert(code[i] == alphabet()[k]);
        assert(0 <= k < 32);
    }
}

/// Whether a character may stand in a host name.
pub open spec fn host_char(c: char) -> bool {
    text::ascii_alphanumeric(c) || c == '-'
}

/// A text without the `.local` endings it has, one or many.
pub open spec fn without_local(s: Seq<char>) -> Seq<char>
    decreases s.len(),
{
    if s.len() >= 6 && s.skip(s.len() - 6) == seq!['.', 'l', 'o', 'c', 'a', 'l'] {
        without_local(s.take(s.len() - 6))
    } else {
        s
    }
}

/// The host name that a text comes to.
pub open spec fn host_of(value: Seq<char>) -> Seq<char> {
    let safe = without_local(text::trimmed(value)).filter(|c: char| host_char(c));
    if safe.len() == 0 {
        "quietwrite"@
    } else {
        safe
    }
}

/// What the host is called: what the environment says, unless that is blank; or
/// else what the system prints; or else the name of the desk.
pub open spec fn host_source(environment: Option<Seq<char>>, printed: Option<Seq<u8>>) -> Seq<char> {
    match environment {
        Some(name) => if !text::blank(name) {
            name
        } else {
            match printed {
                Some(bytes) => text::trimmed(text::utf8_lossy(bytes)),
                None => "quietwrite"@,
            }
        },
        None => match printed {
            Some(bytes) => text::trimmed(text::utf8_lossy(bytes)),
            None => "quietwrite"@,
        },
    }
}

fn ends_local(chars: &[char], end: usize) -> (yes: bool)
    requires
        end <= chars@.len(),
    ensures
        yes == (end >= 6 && chars@.take(end as int).skip(end - 6) == seq![
            '.',
            'l',
            'o',
            'c',
            'a',
            'l',
        ]),
{
    if end < 6 {
        return false;
    }
    let yes: bool = chars[end - 6] == '.' && chars[end - 5] == 'l' && chars[end - 4] == 'o'
        && chars[end - 3] == 'c' && chars[end - 2] == 'a' && chars[end - 1] == 'l';
    proof {
        let tail = chars@.take(end as int).skip(end - 6);
        let word = seq!['.', 'l', 'o', 'c', 'a', 'l'];
        if yes {
            assert(tail == word);
        } else if tail == word {
            assert(tail[0] == '.' && tail[1] == 'l' && tail[2] == 'o' && tail[3] == 'c' && tail[4]
                == 'a' && tail[5] == 'l');
        }
    }
    yes
}

/// Makes a host name out of a text.
pub fn safe_hostname(value: &str) -> (host: String)
    ensures
        host@ == host_of(value@),
{
    let trimmed: Vec<char> = text::trim(text::chars_of(value).as_slice());
    let mut end: usize = trimmed.len();
    assert(trimmed@.take(trimmed@.len() as int) == trimmed@);
    while ends_local(trimmed.as_slice(), end)
        invariant
            end <= trimmed@.len(),
            without_local(trimmed@.take(end as int)) == without_local(trimmed@),
        decreases end,
    {
        assert(trimmed@.take(end as int).take(end - 6) == trimmed@.take(end - 6));
        end -= 6;
    }
    let ghost base = trimmed@.take(end as int);
    let mut safe = String::new();
    let mut i: usize = 0;
    proof {
        reveal(Seq::filter);
        assert(safe@ == base.take(0).filter(|c: char| host_char(c)));
    }
    let mut count: usize = 0;
    while i < end
        invariant
            i <= end <= trimmed@.len(),
            base == trimmed@.take(end as int),
            safe@ == base.take(i as int).filter(|c: char| host_char(c)),
            count == safe@.len(),
            count <= i,
        decreases end - i,
    {
        let c: char = trimmed[i];
        proof {
            reveal(Seq::filter);
            assert(base.take(i + 1).drop_last() == base.take(i as int));
            assert(base.take(i + 1).last() == c);
        }
        if text::is_ascii_alphanumeric(c) || c == '-' {
            safe.push(c);
            count += 1;
        }
        i += 1;
    }
    assert(base.take(end as int) == base);
    if count == 0 {
        text::owned("quietwrite")
    } else {
        safe
    }
}

/// The host name of the device, from what the environment and the system say.
pub fn device_hostname(environment: Option<&str>, printed: Option<&Vec<u8>>) -> (host: String)
    ensures
        host@ == host_of(
            host_source(
                match environment {
                    Some(name) => Some(name@),
                    None => None,
                },
                match printed {
                    Some(bytes) => Some(bytes@),
                    None => None,
                },
            ),
        ),
{
    if let Some(name) = environment {
        if !text::is_blank(text::chars_of(name).as_slice()) {
            return safe_hostname(name);
        }
    }
    match printed {
        Some(bytes) => {
            let shown: String = text::utf8_to_string_lossy(bytes.as_slice());
            let trimmed: Vec<char> = text::trim(text::chars_of(shown.as_str()).as_slice());
            safe_hostname(text::string_of(trimmed.as_slice()).as_str())
        },
        None => safe_hostname("quietwrite"),
    }
}

/// The addresses of the library: by name, and by number where it is known.
pub open spec fn urls(host: Seq<char>, address: Option<Seq<char>>) -> Seq<char> {
    let by_name = "http://"@ + host + ".local:8787"@;
    match address {
        Some(number) => {
            let by_number = "http://"@ + number + ":8787"@;
            if by_number == by_name {
                by_name
            } else {
                by_name + "  or  "@ + by_number
            }
        },
        None => by_name,
    }
}

/// The addresses of the library.
pub fn share_urls(host: &str, address: Option<&str>) -> (shown: String)
    ensures
        shown@ == urls(
            host@,
            match address {
                Some(number) => Some(number@),
                None => None,
            },
        ),
{
    let mut by_name: String = text::owned("http://");
    by_name.append(host);
    by_name.append(".local:8787");
    match address {
        Some(number) => {
            let mut by_number: String = text::owned("http://");
            by_number.append(number);
            by_number.append(":8787");
            if !text::same(by_number.as_str(), by_name.as_str()) {
                by_name.append("  or  ");
                by_name.append(by_number.as_str());
            }
            by_name
        },
        None => by_name,
    }
}

/// How the pages look.
pub const WEB_STYLE: &'static str = r#"
:root{--paper:#f1efe7;--ink:#111;--white:#fff;--signal:#ff4d28}
*{box-sizing:border-box}
html{background:var(--paper)}
body{margin:0;background:var(--paper);color:var(--ink);font:700 17px/1.4 Arial,Helvetica,sans-serif;min-height:100vh}
a{color:inherit;text-decoration-thickness:2px;text-underline-offset:4px}
a:focus-visible,input:focus-visible,button:focus-visible{outline:3px solid var(--signal);outline-offset:3px}
.masthead{padding:clamp(28px,6vw,72px);border-bottom:4px solid var(--ink);background:var(--white)}
.eyebrow,.section-label{display:inline-block;font:900 12px/1 Arial,Helvetica,sans-serif;letter-spacing:.14em;text-transform:uppercase;border:2px solid var(--ink);padding:8px 10px}
.eyebrow{background:var(--signal)}
.section-label{background:var(--ink);color:var(--white);margin-bottom:20px}
h1{font:900 clamp(52px,12vw,136px)/.78 Impact,Arial Black,Arial,sans-serif;letter-spacing:-.035em;margin:.38em 0 .24em;text-transform:uppercase;overflow-wrap:anywhere}
.masthead p{display:flex;justify-content:space-between;gap:20px;margin:0;border-top:3px solid var(--ink);padding-top:12px;font-size:clamp(13px,2vw,18px);letter-spacing:.08em}
.masthead strong{border:2px solid var(--ink);padding:2px 7px}
.library,.document{max-width:1040px;margin:0 auto;padding:clamp(28px,5vw,60px)}
ul{list-style:none;margin:0;padding:0;border:3px solid var(--ink);background:var(--white)}
li{display:grid;grid-template-columns:minmax(0,1fr) auto;align-items:stretch;border-bottom:2px solid var(--ink)}
li:last-child{border-bottom:0}
li>a:first-child{padding:18px 20px;font-size:clamp(17px,2.5vw,23px);overflow-wrap:anywhere;text-decoration:none}
li>a:first-child:hover{background:#e4e1d7}
a.download{display:flex;align-items:center;border-left:2px solid var(--ink);background:var(--ink);color:var(--white);padding:12px 18px;text-decoration:none;font-size:12px;letter-spacing:.08em}
a.download:hover,.topbar a:hover{background:var(--signal);color:var(--ink)}
.topbar{display:grid;grid-template-columns:1fr auto 1fr;align-items:center;gap:16px;padding:15px 20px;background:var(--ink);color:var(--white);border-bottom:5px solid var(--signal);font-size:12px;letter-spacing:.07em}
.topbar a:last-child{text-align:right}.topbar span{text-align:center;color:#c9c5b9}
.document h1{font-size:clamp(38px,8vw,82px);line-height:.92;margin:.25em 0 .45em;border-bottom:4px solid var(--ink);padding-bottom:20px}
pre{margin:0;white-space:pre-wrap;overflow-wrap:anywhere;background:var(--white);border:3px solid var(--ink);padding:clamp(20px,4vw,36px);font:500 17px/1.7 Courier New,monospace}
.login{min-height:100vh;display:grid;place-items:center;padding:28px;background:var(--paper)}
.login-card{width:min(100%,540px);background:var(--white);border:4px solid var(--ink);box-shadow:9px 9px 0 var(--ink);padding:clamp(26px,6vw,50px)}
.login h1{font-size:clamp(60px,14vw,106px);margin:.4em 0 .3em}
.login p{font-size:14px;letter-spacing:.04em}
form{margin-top:26px;border-top:3px solid var(--ink);padding-top:22px}
label{display:block;font-size:12px;letter-spacing:.12em}
input,button{display:block;width:100%;border:3px solid var(--ink);border-radius:0;font:900 19px/1 Arial,Helvetica,sans-serif}
input{margin:10px 0 14px;padding:15px;background:var(--white);color:var(--ink);text-transform:uppercase;letter-spacing:.15em}
button{margin-top:18px;padding:16px;background:var(--ink);color:var(--white);cursor:pointer;text-align:left}
button:hover{background:var(--signal);color:var(--ink)}
.error{border-left:7px solid var(--signal);padding:8px 12px;background:#eeeae0}.small{margin:26px 0 0;font-size:11px!important}.empty{border:3px solid var(--ink);background:var(--white);padding:28px}
@media(max-width:620px){.masthead{padding:24px}.masthead p{align-items:flex-start;flex-direction:column}.library,.document{padding:24px 18px 36px}li{grid-template-columns:1fr}a.download{justify-content:center;border-left:0;border-top:2px solid var(--ink);padding:12px}.topbar{grid-template-columns:1fr 1fr}.topbar span{display:none}.login{padding:18px}.login-card{box-shadow:6px 6px 0 var(--ink);padding:24px}pre{padding:20px}}
"#;

/// Replaces the characters that mean something in HTML.
pub fn html_escape(value: &str) -> (result: String)
    ensures
        result@ == html::escaped(value@, true),
{
    html::escape(value, true)
}

/// A page with a title and a body.
pub open spec fn page_text(title: Seq<char>, body: Seq<char>) -> Seq<char> {
    "<!doctype html><html lang=\"en\"><head><meta charset=\"utf-8\"><meta name=\"viewport\" content=\"width=device-width,initial-scale=1\"><meta name=\"color-scheme\" content=\"light\"><title>"@
        + html::escaped(title, true) + "</title><style>"@ + WEB_STYLE@ + "</style></head><body>"@
        + body + "</body></html>"@
}

fn page(title: &str, body: &str) -> (page: String)
    ensures
        page@ == page_text(title@, body@),
{
    let mut page: String = text::owned(
        "<!doctype html><html lang=\"en\"><head><meta charset=\"utf-8\"><meta name=\"viewport\" content=\"width=device-width,initial-scale=1\"><meta name=\"color-scheme\" content=\"light\"><title>",
    );
    page.append(html_escape(title).as_str());
    page.append("</title><style>");
    page.append(WEB_STYLE);
    page.append("</style></head><body>");
    page.append(body);
    page.append("</body></html>");
    page
}

/// The link that leads to a note: its label in hexadecimal.
pub open spec fn link(label: Seq<char>) -> Seq<char> {
    hex::hex_text(vstd::utf8::encode_utf8(label))
}

fn link_to(label: &str) -> (encoded: String)
    ensures
        encoded@ == link(label@),
{
    hex::hex_encode(text::bytes_of(label).as_slice())
}

/// An entry of the index.
pub open spec fn index_entry(label: Seq<char>) -> Seq<char> {
    "<li><a href=\"/view/"@ + link(label) + "\">"@ + html::escaped(label, true)
        + "</a><a class=\"download\" href=\"/download/"@ + link(label) + "\">Download</a></li>"@
}

/// The first `count` entries of the index.
pub open spec fn index_entries(labels: Seq<Seq<char>>, count: int) -> Seq<char>
    decreases count,
{
    if count <= 0 {
        Seq::empty()
    } else {
        index_entries(labels, count - 1) + index_entry(labels[count - 1])
    }
}

/// A number with at least two digits.
pub open spec fn two_digits(n: nat) -> Seq<char> {
    if n < 10 {
        "0"@ + text::decimal(n)
    } else {
        text::decimal(n)
    }
}

/// The page that lists the notes.
pub open spec fn index_text(labels: Seq<Seq<char>>) -> Seq<char> {
    page_text(
        "QuietWrite library"@,
        "<header class=\"masthead\"><div class=\"eyebrow\">LOCAL NETWORK / READ ONLY</div><h1>QUIET<br>WRITE</h1><p>ORDINARY NOTES <strong>"@
            + two_digits(labels.len())
            + " FILES</strong></p></header><main class=\"library\"><div class=\"section-label\">NOTE INDEX</div><ul>"@
            + (if labels.len() == 0 {
            "<p class=\"empty\">NO ORDINARY MARKDOWN NOTES FOUND.</p>"@
        } else {
            index_entries(labels, labels.len() as int)
        }) + "</ul></main>"@,
    )
}

fn list_entry(label: &str) -> (entry: String)
    ensures
        entry@ == index_entry(label@),
{
    let encoded: String = link_to(label);
    let mut entry: String = text::owned("<li><a href=\"/view/");
    entry.append(encoded.as_str());
    entry.append("\">");
    entry.append(html_escape(label).as_str());
    entry.append("</a><a class=\"download\" href=\"/download/");
    entry.append(encoded.as_str());
    entry.append("\">Download</a></li>");
    entry
}

/// Labels of notes.
pub open spec fn labels_of(notes: Seq<SafeNote>) -> Seq<Seq<char>> {
    notes.map_values(|note: SafeNote| note.label@)
}

fn list_entries(notes: &Vec<SafeNote>) -> (entries: String)
    ensures
        entries@ == index_entries(labels_of(notes@), notes@.len() as int),
{
    let ghost labels = labels_of(notes@);
    let mut entries = String::new();
    assert(entries@ == Seq::<char>::empty());
    let mut i: usize = 0;
    while i < notes.len()
        invariant
            i <= notes@.len(),
            labels == labels_of(notes@),
            entries@ == index_entries(labels, i as int),
        decreases notes@.len() - i,
    {
        assert(labels[i as int] == notes@[i as int].label@);
        entries.append(list_entry(notes[i].label.as_str()).as_str());
        i += 1;
    }
    entries
}

fn count_text(count: usize) -> (shown: String)
    ensures
        shown@ == two_digits(count as nat),
{
    if count < 10 {
        let mut shown: String = text::owned("0");
        shown.append(text::decimal_text(count as u128).as_str());
        shown
    } else {
        text::decimal_text(count as u128)
    }
}

/// The page that lists the notes.
pub fn index_page(notes: &Vec<SafeNote>) -> (shown: String)
    ensures
        shown@ == index_text(labels_of(notes@)),
{
    let mut body: String = text::owned(
        "<header class=\"masthead\"><div class=\"eyebrow\">LOCAL NETWORK / READ ONLY</div><h1>QUIET<br>WRITE</h1><p>ORDINARY NOTES <strong>",
    );
    body.append(count_text(notes.len()).as_str());
    body.append(
        " FILES</strong></p></header><main class=\"library\"><div class=\"section-label\">NOTE INDEX</div><ul>",
    );
    if notes.len() == 0 {
        body.append("<p class=\"empty\">NO ORDINARY MARKDOWN NOTES FOUND.</p>");
    } else {
        body.append(list_entries(notes).as_str());
    }
    body.append("</ul></main>");
    page("QuietWrite library", body.as_str())
}

/// The page that shows a note.
pub open spec fn note_text(label: Seq<char>, contents: Seq<char>) -> Seq<char> {
    page_text(
        label,
        "<nav class=\"topbar\"><a href=\"/\">← ALL NOTES</a><span>QUIETWRITE / VIEWER</span><a href=\"/download/"@
            + link(label)
            + "\">DOWNLOAD</a></nav><main class=\"document\"><div class=\"section-label\">MARKDOWN / READ ONLY</div><h1>"@
            + html::escaped(label, true) + "</h1><pre>"@ + html::escaped(contents, true)
            + "</pre></main>"@,
    )
}

/// The page that shows a note.
pub fn note_page(label: &str, contents: &str) -> (shown: String)
    ensures
        shown@ == note_text(label@, contents@),
{
    let mut body: String = text::owned(
        "<nav class=\"topbar\"><a href=\"/\">← ALL NOTES</a><span>QUIETWRITE / VIEWER</span><a href=\"/download/",
    );
    body.append(link_to(label).as_str());
    body.append(
        "\">DOWNLOAD</a></nav><main class=\"document\"><div class=\"section-label\">MARKDOWN / READ ONLY</div><h1>",
    );
    body.append(html_escape(label).as_str());
    body.append("</h1><pre>");
    body.append(html_escape(contents).as_str());
    body.append("</pre></main>");
    page(label, body.as_str())
}

/// The page that asks for the code.
pub open spec fn login_text(failed: bool) -> Seq<char> {
    page_text(
        "QuietWrite access"@,
        "<main class=\"login\"><section class=\"login-card\"><div class=\"eyebrow\">PRIVATE DEVICE LINK / 8787</div><h1>QUIET<br>WRITE</h1><p>ENTER THE ACCESS CODE SHOWN ON THE WRITING DEVICE.</p>"@
            + (if failed {
            "<p class=\"error\">ACCESS DENIED — CHECK THE CODE.</p>"@
        } else {
            ""@
        })
            + "<form method=\"post\" action=\"/login\"><label>ACCESS CODE<input name=\"code\" autocomplete=\"one-time-code\" inputmode=\"text\" autofocus required></label><button type=\"submit\">OPEN LIBRARY →</button></form><p class=\"small\">ORDINARY NOTES ONLY / READ ONLY</p></section></main>"@,
    )
}

/// The page that asks for the code.
pub fn login_page(failed: bool) -> (shown: String)
    ensures
        shown@ == login_text(failed),
{
    let mut body: String = text::owned(
        "<main class=\"login\"><section class=\"login-card\"><div class=\"eyebrow\">PRIVATE DEVICE LINK / 8787</div><h1>QUIET<br>WRITE</h1><p>ENTER THE ACCESS CODE SHOWN ON THE WRITING DEVICE.</p>",
    );
    if failed {
        body.append("<p class=\"error\">ACCESS DENIED — CHECK THE CODE.</p>");
    } else {
        body.append("");
    }
    body.append(
        "<form method=\"post\" action=\"/login\"><label>ACCESS CODE<input name=\"code\" autocomplete=\"one-time-code\" inputmode=\"text\" autofocus required></label><button type=\"submit\">OPEN LIBRARY →</button></form><p class=\"small\">ORDINARY NOTES ONLY / READ ONLY</p></section></main>",
    );
    page("QuietWrite access", body.as_str())
}

/// A note that may be read on the network: where it really lies, and the label
/// that it goes by.
#[derive(Debug)]
pub struct SafeNote {
    pub canonical: NotePath,
    pub label: String,
}

/// A safe note as a mathematical value.
pub type SafeView = (path::PathView, Seq<char>);

pub open spec fn safe_view(note: SafeNote) -> SafeView {
    (note.canonical@, note.label@)
}

pub open spec fn safe_views(notes: Seq<SafeNote>) -> Seq<SafeView> {
    notes.map_values(|note: SafeNote| safe_view(note))
}

/// Whether one label comes before another or with it, whatever the case of its
/// letters.
pub open spec fn label_at_most(a: SafeView, b: SafeView) -> bool {
    text::text_at_most(text::lowercase(a.1), text::lowercase(b.1), 0)
}

impl Ranked for SafeNote {
    open spec fn at_most(self, other: SafeNote) -> bool {
        label_at_most(safe_view(self), safe_view(other))
    }

    proof fn total(a: SafeNote, b: SafeNote) {
        text::lemma_text_total(text::lowercase(a.label@), text::lowercase(b.label@), 0);
    }

    proof fn transitive(a: SafeNote, b: SafeNote, c: SafeNote) {
        text::lemma_text_transitive(
            text::lowercase(a.label@),
            text::lowercase(b.label@),
            text::lowercase(c.label@),
            0,
        );
    }

    fn ranks_at_most(&self, other: &SafeNote) -> (yes: bool) {
        let a: String = text::to_lowercase(self.label.as_str());
        let b: String = text::to_lowercase(other.label.as_str());
        text::comes_at_most(
            text::chars_of(a.as_str()).as_slice(),
            text::chars_of(b.as_str()).as_slice(),
        )
    }
}

/// A file that was found, and where it really lies, if that can be told.
#[derive(Debug)]
pub struct Candidate {
    pub entry: FileEntry,
    pub canonical: Option<NotePath>,
}

/// A file that was found, as a mathematical value.
#[verifier::ext_equal]
pub struct CandidateView {
    pub entry: shelf::FileView,
    pub canonical: Option<path::PathView>,
}

impl View for Candidate {
    type V = CandidateView;

    open spec fn view(&self) -> CandidateView {
        CandidateView {
            entry: self.entry@,
            canonical: match self.canonical {
                Some(place) => Some(place@),
                None => None,
            },
        }
    }
}

pub open spec fn candidate_views(files: Seq<Candidate>) -> Seq<CandidateView> {
    files.map_values(|file: Candidate| file@)
}

/// How many folders hold ordinary notes: all shelves before the encrypted one.
pub const ORDINARY_FOLDERS: usize = 6;

/// Whether a name leads nowhere but down.
pub open spec fn ordinary_name(name: Seq<char>) -> bool {
    name.len() > 0 && name != "."@ && name != ".."@
}

/// Whether a place is kept from readers: it lies on the encrypted shelf, among
/// the hidden files, in the archive or among the exports.
pub open spec fn kept_back(root: path::PathView, place: path::PathView) -> bool {
    ||| place.below(root.joined(shelf::category_title(shelf::SECRET_CATEGORY_INDEX as int)))
    ||| place.below(root.joined(".quietwrite"@))
    ||| place.below(root.joined("Archive"@))
    ||| place.below(root.joined("Exports"@))
}

/// Whether a file may be read on the network: it really lies in the writing
/// directory, at no place kept from readers, and the way to it only leads down.
pub open spec fn may_be_read(
    directory: path::PathView,
    root: path::PathView,
    file: CandidateView,
) -> bool {
    &&& file.canonical matches Some(place) && place.below(root) && !kept_back(root, place)
    &&& file.entry.place.below(directory)
    &&& forall|i: int|
        directory.parts.len() <= i < file.entry.place.parts.len() ==> ordinary_name(
            #[trigger] file.entry.place.parts[i],
        )
}

/// The label of a file: the way to it from the writing directory.
pub open spec fn label_of(directory: path::PathView, place: path::PathView) -> Seq<char> {
    path::slashed(place.parts.skip(directory.parts.len() as int))
}

/// The files of a folder that may be read, among the first `count` that were
/// found.
pub open spec fn readable_in(
    directory: path::PathView,
    root: path::PathView,
    folder: path::PathView,
    recursive: bool,
    files: Seq<CandidateView>,
    count: int,
) -> Seq<SafeView>
    decreases count,
{
    if count <= 0 {
        Seq::empty()
    } else {
        let before = readable_in(directory, root, folder, recursive, files, count - 1);
        let file = files[count - 1];
        if shelf::note_in(folder, recursive, file.entry) && may_be_read(directory, root, file) {
            before.push((file.canonical->0, label_of(directory, file.entry.place)))
        } else {
            before
        }
    }
}

/// The readable files of the writing directory itself and of the first `count`
/// ordinary folders.
pub open spec fn readable(
    directory: path::PathView,
    root: path::PathView,
    files: Seq<CandidateView>,
    count: int,
) -> Seq<SafeView>
    decreases count,
{
    if count <= 0 {
        readable_in(directory, root, directory, false, files, files.len() as int)
    } else {
        readable(directory, root, files, count - 1) + readable_in(
            directory,
            root,
            shelf::category_folder(directory, count - 1),
            true,
            files,
            files.len() as int,
        )
    }
}

/// A list in which no two neighbours are the same file: of such a run the first
/// is kept.
pub open spec fn without_repeats(notes: Seq<SafeView>) -> Seq<SafeView>
    decreases notes.len(),
{
    if notes.len() == 0 {
        notes
    } else {
        let before = without_repeats(notes.drop_last());
        if before.len() > 0 && before.last().0 == notes.last().0 {
            before
        } else {
            before.push(notes.last())
        }
    }
}

/// The notes that may be read on the network, in the order of their labels.
/// Without a root that can be told there are none.
pub open spec fn shared_notes(
    directory: path::PathView,
    root: Option<path::PathView>,
    files: Seq<CandidateView>,
) -> Seq<SafeView> {
    match root {
        Some(place) => without_repeats(
            order::sorted_by(
                readable(directory, place, files, ORDINARY_FOLDERS as int),
                |a: SafeView, b: SafeView| label_at_most(a, b),
            ),
        ),
        None => Seq::empty(),
    }
}

fn is_ordinary_name(name: &str) -> (yes: bool)
    ensures
        yes == ordinary_name(name@),
{
    text::chars_of(name).len() > 0 && !text::same(name, ".") && !text::same(name, "..")
}

fn is_kept_back(root: &NotePath, place: &NotePath) -> (yes: bool)
    ensures
        yes == kept_back(root@, place@),
{
    place.starts_with(&root.join(shelf::category_name(shelf::SECRET_CATEGORY_INDEX)))
        || place.starts_with(&root.join(".quietwrite")) || place.starts_with(&root.join("Archive"))
        || place.starts_with(&root.join("Exports"))
}

fn readable_file(directory: &NotePath, root: &NotePath, file: &Candidate) -> (yes: bool)
    ensures
        yes == may_be_read(directory@, root@, file@),
{
    match &file.canonical {
        Some(place) => {
            if !place.starts_with(root) || is_kept_back(root, place) {
                return false;
            }
        },
        None => {
            return false;
        },
    }
    if !file.entry.place.starts_with(directory) {
        return false;
    }
    let ghost parts = file.entry.place@.parts;
    assert(parts.len() == file.entry.place.parts@.len());
    assert(directory@.parts.len() == directory.parts@.len());
    let mut i: usize = directory.parts.len();
    while i < file.entry.place.parts.len()
        invariant
            directory@.parts.len() <= i <= file.entry.place.parts@.len(),
            parts == file.entry.place@.parts,
            parts.len() == file.entry.place.parts@.len(),
            forall|k: int|
                directory@.parts.len() <= k < i ==> ordinary_name(#[trigger] parts[k]),
        decreases file.entry.place.parts@.len() - i,
    {
        assert(parts[i as int] == file.entry.place.parts@[i as int]@);
        if !is_ordinary_name(file.entry.place.parts[i].as_str()) {
            assert(!ordinary_name(file@.entry.place.parts[i as int]));
            return false;
        }
        i += 1;
    }
    true
}

/// Picks the readable files of a folder out of what was found.
fn collect_safe_markdown(
    directory: &NotePath,
    root: &NotePath,
    folder: &NotePath,
    recursive: bool,
    files: &Vec<Candidate>,
    notes: &mut Vec<SafeNote>,
)
    ensures
        safe_views(final(notes)@) == safe_views(old(notes)@) + readable_in(
            directory@,
            root@,
            folder@,
            recursive,
            candidate_views(files@),
            files@.len() as int,
        ),
{
    let ghost shown = candidate_views(files@);
    let ghost start = safe_views(notes@);
    let mut i: usize = 0;
    assert(start + readable_in(directory@, root@, folder@, recursive, shown, 0) == start);
    while i < files.len()
        invariant
            i <= files@.len(),
            shown == candidate_views(files@),
            safe_views(notes@) == start + readable_in(
                directory@,
                root@,
                folder@,
                recursive,
                shown,
                i as int,
            ),
        decreases files@.len() - i,
    {
        let file: &Candidate = &files[i];
        let ghost before = notes@;
        let ghost so_far = readable_in(directory@, root@, folder@, recursive, shown, i as int);
        assert(shown[i as int] == file@);
        let place: &NotePath = &file.entry.place;
        assert(place@.parts.len() == place.parts@.len());
        assert(folder@.parts.len() == folder.parts@.len());
        if file.entry.is_file && place.is_markdown() && place.starts_with(folder)
            && place.parts.len() > folder.parts.len() && (recursive || place.parts.len()
            - folder.parts.len() == 1) && readable_file(directory, root, file) {
            if let Some(canonical) = &file.canonical {
                let label: String = path::join_with_slashes(&place.parts, directory.parts.len());
                let note: SafeNote = SafeNote { canonical: canonical.copy(), label };
                notes.push(note);
                proof {
                    assert(safe_views(notes@) == safe_views(before).push(safe_view(note)));
                    assert((start + so_far).push(safe_view(note)) == start + so_far.push(
                        safe_view(note),
                    ));
                }
            }
        }
        i += 1;
    }
}

fn drop_repeats(notes: Vec<SafeNote>) -> (kept: Vec<SafeNote>)
    ensures
        safe_views(kept@) == without_repeats(safe_views(notes@)),
{
    let ghost shown = safe_views(notes@);
    let mut kept: Vec<SafeNote> = Vec::new();
    let mut i: usize = 0;
    assert(safe_views(kept@) == without_repeats(shown.take(0)));
    while i < notes.len()
        invariant
            i <= notes@.len(),
            shown == safe_views(notes@),
            safe_views(kept@) == without_repeats(shown.take(i as int)),
        decreases notes@.len() - i,
    {
        let ghost before = kept@;
        proof {
            assert(shown.take(i + 1).drop_last() == shown.take(i as int));
            assert(shown.take(i + 1).last() == safe_view(notes@[i as int]));
            assert(safe_views(kept@).len() == kept@.len());
            if kept@.len() > 0 {
                assert(safe_views(kept@).last() == safe_view(kept@[kept@.len() - 1]));
            }
        }
        let repeat: bool = kept.len() > 0 && kept[kept.len() - 1].canonical.same(
            &notes[i].canonical,
        );
        if !repeat {
            let note: SafeNote = SafeNote {
                canonical: notes[i].canonical.copy(),
                label: text::owned(notes[i].label.as_str()),
            };
            kept.push(note);
            assert(safe_views(kept@) == safe_views(before).push(safe_view(note)));
        }
        i += 1;
    }
    assert(shown.take(shown.len() as int) == shown);
    kept
}

/// The notes that may be read on the network, among what was found.
pub fn safe_notes(directory: &NotePath, root: Option<&NotePath>, files: &Vec<Candidate>) -> (notes:
    Vec<SafeNote>)
    ensures
        safe_views(notes@) == shared_notes(
            directory@,
            match root {
                Some(place) => Some(place@),
                None => None,
            },
            candidate_views(files@),
        ),
{
    let root: &NotePath = match root {
        Some(place) => place,
        None => {
            let none: Vec<SafeNote> = Vec::new();
            assert(safe_views(none@) == Seq::<SafeView>::empty());
            return none;
        },
    };
    let ghost shown = candidate_views(files@);
    let mut notes: Vec<SafeNote> = Vec::new();
    assert(safe_views(notes@) == Seq::<SafeView>::empty());
    collect_safe_markdown(directory, root, directory, false, files, &mut notes);
    assert(safe_views(notes@) == readable(directory@, root@, shown, 0));
    let mut i: usize = 0;
    while i < ORDINARY_FOLDERS
        invariant
            i <= ORDINARY_FOLDERS,
            shown == candidate_views(files@),
            safe_views(notes@) == readable(directory@, root@, shown, i as int),
        decreases ORDINARY_FOLDERS - i,
    {
        let folder: NotePath = shelf::category_directory(directory, i);
        collect_safe_markdown(directory, root, &folder, true, files, &mut notes);
        i += 1;
    }
    proof {
        order::lemma_sorted_views(
            notes@,
            |note: SafeNote| safe_view(note),
            |a: SafeView, b: SafeView| label_at_most(a, b),
        );
    }
    drop_repeats(order::sort(notes))
}

/// The first note, from `at` on, with a label.
pub open spec fn note_with_label(notes: Seq<SafeView>, label: Seq<char>, at: int) -> Option<int>
    decreases notes.len() - at,
{
    if at >= notes.len() {
        None
    } else if notes[at].1 == label {
        Some(at)
    } else {
        note_with_label(notes, label, at + 1)
    }
}

/// The note that a link leads to.
pub open spec fn linked_note(notes: Seq<SafeView>, encoded: Seq<char>) -> Option<int> {
    let bytes = hex::hex_bytes(encoded);
    if hex::is_hex(encoded) && vstd::utf8::valid_utf8(bytes) {
        note_with_label(notes, vstd::utf8::decode_utf8(bytes), 0)
    } else {
        None
    }
}

/// Finds the note that a link leads to.
pub fn resolve_note(notes: &Vec<SafeNote>, encoded: &str) -> (found: Option<usize>)
    ensures
        match found {
            Some(i) => i < notes@.len() && linked_note(safe_views(notes@), encoded@) == Some(
                i as int,
            ),
            None => linked_note(safe_views(notes@), encoded@) is None,
        },
{
    let bytes: Vec<u8> = match hex::hex_decode(encoded) {
        Some(bytes) => bytes,
        None => {
            return None;
        },
    };
    let label: String = match text::utf8_to_string(bytes) {
        Some(label) => label,
        None => {
            return None;
        },
    };
    let ghost shown = safe_views(notes@);
    let mut i: usize = 0;
    while i < notes.len()
        invariant
            i <= notes@.len(),
            shown == safe_views(notes@),
            linked_note(shown, encoded@) == note_with_label(shown, label@, i as int),
        decreases notes@.len() - i,
    {
        assert(shown[i as int] == safe_view(notes@[i as int]));
        if text::same(notes[i].label.as_str(), label.as_str()) {
            return Some(i);
        }
        i += 1;
    }
    None
}

proof fn lemma_note_with_label(notes: Seq<SafeView>, label: Seq<char>, at: int, k: int)
    requires
        0 <= at <= k < notes.len(),
        notes[k].1 == label,
    ensures
        note_with_label(notes, label, at) is Some,
        at <= note_with_label(notes, label, at)->0 <= k,
        notes[note_with_label(notes, label, at)->0].1 == label,
    decreases k - at,
{
    if notes[at].1 != label {
        lemma_note_with_label(notes, label, at + 1, k);
    }
}

/// The link of a listed note leads to a note with its label.
pub proof fn law_links_lead_to_their_notes(notes: Seq<SafeView>, k: int)
    requires
        0 <= k < notes.len(),
    ensures
        linked_note(notes, link(notes[k].1)) is Some,
        0 <= linked_note(notes, link(notes[k].1))->0 < notes.len(),
        notes[linked_note(notes, link(notes[k].1))->0].1 == notes[k].1,
{
    let label = notes[k].1;
    hex::law_hex_reads_back(vstd::utf8::encode_utf8(label));
    vstd::utf8::encode_utf8_valid_utf8(label);
    vstd::utf8::encode_utf8_decode_utf8(label);
    lemma_note_with_label(notes, label, 0, k);
}

/// Whether a note is one that the library may show: it is a Markdown file that
/// was found and may be read, under the way that leads to it.
pub open spec fn shown_from(
    directory: path::PathView,
    root: path::PathView,
    files: Seq<CandidateView>,
    note: SafeView,
) -> bool {
    exists|i: int|
        0 <= i < files.len() && may_be_read(directory, root, #[trigger] files[i])
            && files[i].entry.is_file && files[i].entry.place.markdown() && note == (
            files[i].canonical->0,
            label_of(directory, files[i].entry.place),
        )
}

proof fn lemma_readable_in_is_shown(
    directory: path::PathView,
    root: path::PathView,
    folder: path::PathView,
    recursive: bool,
    files: Seq<CandidateView>,
    count: int,
)
    requires
        count <= files.len(),
    ensures
        forall|i: int|
            0 <= i < readable_in(directory, root, folder, recursive, files, count).len()
                ==> shown_from(
                directory,
                root,
                files,
                #[trigger] readable_in(directory, root, folder, recursive, files, count)[i],
            ),
    decreases count,
{
    if count > 0 {
        lemma_readable_in_is_shown(directory, root, folder, recursive, files, count - 1);
        let before = readable_in(directory, root, folder, recursive, files, count - 1);
        let all = readable_in(directory, root, folder, recursive, files, count);
        assert forall|i: int| 0 <= i < all.len() implies shown_from(
            directory,
            root,
            files,
            #[trigger] all[i],
        ) by {
            if i < before.len() {
                assert(shown_from(directory, root, files, before[i]));
            } else {
                assert(may_be_read(directory, root, files[count - 1]));
            }
        }
    }
}

proof fn lemma_readable_is_shown(
    directory: path::PathView,
    root: path::PathView,
    files: Seq<CandidateView>,
    count: int,
)
    ensures
        forall|i: int|
            0 <= i < readable(directory, root, files, count).len() ==> shown_from(
                directory,
                root,
                files,
                #[trigger] readable(directory, root, files, count)[i],
            ),
    decreases count,
{
    let total = files.len() as int;
    if count <= 0 {
        lemma_readable_in_is_shown(directory, root, directory, false, files, total);
    } else {
        let folder = shelf::category_folder(directory, count - 1);
        lemma_readable_is_shown(directory, root, files, count - 1);
        lemma_readable_in_is_shown(directory, root, folder, true, files, total);
        let before = readable(directory, root, files, count - 1);
        let more = readable_in(directory, root, folder, true, files, total);
        let all = readable(directory, root, files, count);
        assert forall|i: int| 0 <= i < all.len() implies shown_from(
            directory,
            root,
            files,
            #[trigger] all[i],
        ) by {
            if i < before.len() {
                assert(shown_from(directory, root, files, before[i]));
            } else {
                assert(shown_from(directory, root, files, more[i - before.len()]));
            }
        }
    }
}

/// Dropping repeats keeps notes of the list, in their order.
proof fn lemma_without_repeats(notes: Seq<SafeView>)
    requires
        order::in_order_by(notes, |a: SafeView, b: SafeView| label_at_most(a, b)),
    ensures
        order::in_order_by(
            without_repeats(notes),
            |a: SafeView, b: SafeView| label_at_most(a, b),
        ),
        forall|i: int|
            0 <= i < without_repeats(notes).len() ==> notes.contains(
                #[trigger] without_repeats(notes)[i],
            ),
    decreases notes.len(),
{
    let at_most = |a: SafeView, b: SafeView| label_at_most(a, b);
    if notes.len() > 0 {
        let less = notes.drop_last();
        assert(order::in_order_by(less, at_most)) by {
            assert forall|i: int, j: int| 0 <= i <= j < less.len() implies at_most(
                #[trigger] less[i],
                #[trigger] less[j],
            ) by {
                assert(at_most(notes[i], notes[j]));
            }
        }
        lemma_without_repeats(less);
        let before = without_repeats(less);
        let all = without_repeats(notes);
        assert forall|i: int| 0 <= i < all.len() implies notes.contains(#[trigger] all[i]) by {
            if i < before.len() {
                assert(less.contains(before[i]));
                let k = choose|k: int| 0 <= k < less.len() && less[k] == before[i];
                assert(notes[k] == all[i]);
            } else {
                assert(notes[notes.len() - 1] == all[i]);
            }
        }
        assert forall|i: int, j: int| 0 <= i <= j < all.len() implies at_most(
            #[trigger] all[i],
            #[trigger] all[j],
        ) by {
            if j < before.len() {
                assert(at_most(before[i], before[j]));
            } else {
                let k = choose|k: int| 0 <= k < notes.len() && notes[k] == all[i];
                assert(notes.contains(all[i]));
                assert(at_most(notes[k], notes[notes.len() - 1]));
            }
        }
    }
}

/// Every note of the library really lies in the writing directory, at no place
/// kept from readers: not on the encrypted shelf, among the hidden files, in the
/// archive or among the exports. It is a Markdown file that was found, and its
/// label is the way down to it.
pub proof fn law_shared_notes_are_ordinary(
    directory: path::PathView,
    root: path::PathView,
    files: Seq<CandidateView>,
    k: int,
)
    requires
        0 <= k < shared_notes(directory, Some(root), files).len(),
    ensures
        shared_notes(directory, Some(root), files)[k].0.below(root),
        !kept_back(root, shared_notes(directory, Some(root), files)[k].0),
        shown_from(directory, root, files, shared_notes(directory, Some(root), files)[k]),
{
    let all = readable(directory, root, files, ORDINARY_FOLDERS as int);
    let at_most = |a: SafeView, b: SafeView| label_at_most(a, b);
    let sorted = order::sorted_by(all, at_most);
    let note = shared_notes(directory, Some(root), files)[k];
    lemma_readable_is_shown(directory, root, files, ORDINARY_FOLDERS as int);
    order::lemma_sorted_by_keeps(
        all,
        at_most,
        |note: SafeView| shown_from(directory, root, files, note),
    );
    lemma_labels_are_ordered(all);
    lemma_without_repeats(sorted);
    assert(sorted.contains(note));
    let at = choose|at: int| 0 <= at < sorted.len() && sorted[at] == note;
    assert(shown_from(directory, root, files, sorted[at]));
}

proof fn lemma_labels_are_ordered(notes: Seq<SafeView>)
    ensures
        order::in_order_by(
            order::sorted_by(notes, |a: SafeView, b: SafeView| label_at_most(a, b)),
            |a: SafeView, b: SafeView| label_at_most(a, b),
        ),
{
    let at_most = |a: SafeView, b: SafeView| label_at_most(a, b);
    assert forall|a: SafeView, b: SafeView| #[trigger] at_most(a, b) || at_most(b, a) by {
        text::lemma_text_total(text::lowercase(a.1), text::lowercase(b.1), 0);
    }
    assert forall|a: SafeView, b: SafeView, c: SafeView| #[trigger]
        at_most(a, b) && #[trigger] at_most(b, c) implies at_most(a, c) by {
        text::lemma_text_transitive(
            text::lowercase(a.1),
            text::lowercase(b.1),
            text::lowercase(c.1),
            0,
        );
    }
    order::lemma_sorted_by_orders(notes, at_most);
}

/// The library lists its notes in the order of their labels, whatever the case of
/// the letters.
pub proof fn law_shared_notes_are_ordered(
    directory: path::PathView,
    root: path::PathView,
    files: Seq<CandidateView>,
    i: int,
    j: int,
)
    requires
        0 <= i <= j < shared_notes(directory, Some(root), files).len(),
    ensures
        label_at_most(
            shared_notes(directory, Some(root), files)[i],
            shared_notes(directory, Some(root), files)[j],
        ),
{
    let all = readable(directory, root, files, ORDINARY_FOLDERS as int);
    let at_most = |a: SafeView, b: SafeView| label_at_most(a, b);
    lemma_labels_are_ordered(all);
    lemma_without_repeats(order::sorted_by(all, at_most));
    let notes = shared_notes(directory, Some(root), files);
    assert(at_most(notes[i], notes[j]));
}

/// A code spells its bytes: each stands for one of thirty-two characters, the
/// letters from A to Z without I and O and then the digits from 2 to 9, four of
/// them before the dash and four behind it.
pub proof fn law_codes_spell_their_bytes(bytes: Seq<u8>, i: int)
    requires
        bytes.len() == 8,
        0 <= i < 8,
    ensures
        code_of(bytes).len() == 9,
        code_of(bytes)[4] == '-',
        ({
            let c = if i < 4 {
                code_of(bytes)[i]
            } else {
                code_of(bytes)[i + 1]
            };
            let k = bytes[i] as int % 32;
            &&& k < 8 ==> c as int == 'A' as int + k
            &&& 8 <= k < 13 ==> c as int == 'J' as int + k - 8
            &&& 13 <= k < 24 ==> c as int == 'P' as int + k - 13
            &&& 24 <= k ==> c as int == '2' as int + k - 24
        }),
{
    reveal_strlit("ABCDEFGHJKLMNPQRSTUVWXYZ23456789");
    let letters = alphabet();
    assert(letters[0] == 'A' && letters[1] == 'B' && letters[2] == 'C' && letters[3] == 'D'
        && letters[4] == 'E' && letters[5] == 'F' && letters[6] == 'G' && letters[7] == 'H');
    assert(letters[8] == 'J' && letters[9] == 'K' && letters[10] == 'L' && letters[11] == 'M'
        && letters[12] == 'N');
    assert(letters[13] == 'P' && letters[14] == 'Q' && letters[15] == 'R' && letters[16] == 'S'
        && letters[17] == 'T' && letters[18] == 'U' && letters[19] == 'V' && letters[20] == 'W'
        && letters[21] == 'X' && letters[22] == 'Y' && letters[23] == 'Z');
    assert(letters[24] == '2' && letters[25] == '3' && letters[26] == '4' && letters[27] == '5'
        && letters[28] == '6' && letters[29] == '7' && letters[30] == '8' && letters[31] == '9');
    let k = bytes[i] as int % 32;
    assert(0 <= k < 32);
    if i < 4 {
        assert(code_of(bytes)[i] == letters[k]);
    } else {
        assert(code_of(bytes)[i + 1] == letters[k]);
    }
}

/// The library is reached by the name of the host and by its address, both with
/// the same port; where they are one and the same, it is said once.
pub proof fn law_the_library_has_its_addresses(host: Seq<char>, number: Seq<char>)
    ensures
        urls(host, None) == "http://"@ + host + ".local:8787"@,
        number != host + ".local"@ ==> urls(host, Some(number)) == "http://"@ + host
            + ".local:8787"@ + "  or  "@ + "http://"@ + number + ":8787"@,
        number == host + ".local"@ ==> urls(host, Some(number)) == urls(host, None),
{
    reveal_strlit("http://");
    reveal_strlit(".local:8787");
    reveal_strlit(".local");
    reveal_strlit(":8787");
    let by_name = "http://"@ + host + ".local:8787"@;
    let by_number = "http://"@ + number + ":8787"@;
    assert(".local:8787"@ == ".local"@ + ":8787"@);
    if by_number == by_name {
        assert(by_number.subrange(7, by_number.len() - 5) == number);
        assert(by_name.subrange(7, by_name.len() - 5) == host + ".local"@);
    }
    if number == host + ".local"@ {
        assert("http://"@ + (host + ".local"@) + ":8787"@ == by_name);
    }
    assert(by_name + "  or  "@ + by_number == by_name + "  or  "@ + "http://"@ + number
        + ":8787"@);
}

proof fn lemma_host_stays(s: Seq<char>)
    requires
        forall|i: int| 0 <= i < s.len() ==> host_char(#[trigger] s[i]),
    ensures
        s.filter(|c: char| host_char(c)) == s,
    decreases s.len(),
{
    reveal(Seq::filter);
    if s.len() > 0 {
        let less = s.drop_last();
        assert forall|i: int| 0 <= i < less.len() implies host_char(#[trigger] less[i]) by {
            assert(host_char(s[i]));
        }
        lemma_host_stays(less);
        assert(host_char(s[s.len() - 1]));
        assert(less.push(s.last()) == s);
    }
}

/// A host name of letters, digits and dashes stays as it is; white space around it
/// and the ending `.local` are dropped.
pub proof fn law_plain_host_names_stay(name: Seq<char>, before: Seq<char>, after: Seq<char>)
    requires
        name.len() > 0,
        forall|i: int|
            0 <= i < name.len() ==> 'a' <= #[trigger] name[i] <= 'z' || 'A' <= name[i] <= 'Z' || '0'
                <= name[i] <= '9' || name[i] == '-',
        text::blank(before),
        text::blank(after),
    ensures
        host_of(before + name + after) == name,
        host_of(before + (name + ".local"@) + after) == name,
{
    reveal_strlit(".local");
    assert(".local"@ == seq!['.', 'l', 'o', 'c', 'a', 'l']);
    assert forall|i: int| 0 <= i < name.len() implies host_char(#[trigger] name[i]) by {
        assert('a' <= name[i] <= 'z' || 'A' <= name[i] <= 'Z' || '0' <= name[i] <= '9' || name[i]
            == '-');
    }
    lemma_host_stays(name);
    assert(host_char(name[0]) && host_char(name[name.len() - 1]));
    assert(!text::space(name[0]) && !text::space(name.last()));
    text::law_trimming_takes_only_the_ends(before, name, after);
    let long = name + ".local"@;
    assert(long[0] == name[0] && long.last() == 'l');
    text::law_trimming_takes_only_the_ends(before, long, after);
    if name.len() >= 6 {
        assert(name.skip(name.len() - 6)[0] == name[name.len() - 6]);
        assert(host_char(name[name.len() - 6]));
    }
    assert(without_local(name) == name);
    assert(long.skip(long.len() - 6) == ".local"@);
    assert(long.take(long.len() - 6) == name);
    assert(without_local(long) == without_local(name));
}

/// Where nothing is left of a host name, the desk's own name stands for it; the
/// environment counts before the system, and a blank name not at all.
pub proof fn law_the_host_is_always_named(
    blank: Seq<char>,
    name: Seq<char>,
    printed: Option<Seq<u8>>,
)
    requires
        text::blank(blank),
        !text::blank(name),
    ensures
        host_of(blank) == "quietwrite"@,
        host_of(name).len() > 0,
        host_source(Some(name), printed) == name,
        host_source(Some(blank), printed) == host_source(None, printed),
        host_source(None, None) == "quietwrite"@,
        printed matches Some(bytes) ==> host_source(None, printed) == text::trimmed(
            text::utf8_lossy(bytes),
        ),
{
    reveal(Seq::filter);
    reveal_strlit("quietwrite");
    let nothing = Seq::<char>::empty();
    text::law_trimming_takes_only_the_ends(blank, nothing, nothing);
    assert(blank + nothing + nothing == blank);
    assert(nothing.filter(|c: char| host_char(c)).len() == 0);
}

/// A host name has no other characters, whatever it comes from.
pub proof fn law_host_names_are_plain(value: Seq<char>, i: int)
    requires
        0 <= i < host_of(value).len(),
    ensures
        ({
            let c = host_of(value)[i];
            'a' <= c <= 'z' || 'A' <= c <= 'Z' || '0' <= c <= '9' || c == '-'
        }),
{
    reveal_strlit("quietwrite");
    broadcast use vstd::seq_lib::group_filter_ensures;

    let kept = |c: char| host_char(c);
    let safe = without_local(text::trimmed(value)).filter(kept);
    if safe.len() > 0 {
        assert(kept(safe[i]));
    }
    assert(host_char(host_of(value)[i]));
}

proof fn lemma_body_is_on_the_page(title: Seq<char>, body: Seq<char>, part: Seq<char>)
    requires
        text::occurs_in(body, part),
    ensures
        text::occurs_in(page_text(title, body), part),
{
    let head =
        "<!doctype html><html lang=\"en\"><head><meta charset=\"utf-8\"><meta name=\"viewport\" content=\"width=device-width,initial-scale=1\"><meta name=\"color-scheme\" content=\"light\"><title>"@
        + html::escaped(title, true) + "</title><style>"@ + WEB_STYLE@ + "</style></head><body>"@;
    text::lemma_inside_stays(body, part, head, Seq::empty());
    text::lemma_inside_stays(head + body, part, Seq::empty(), "</body></html>"@);
}

/// A page bears its title, escaped.
pub proof fn law_a_page_bears_its_title(title: Seq<char>, body: Seq<char>)
    ensures
        text::occurs_in(
            page_text(title, body),
            "<title>"@ + html::escaped(title, true) + "</title>"@,
        ),
{
    let head =
        "<!doctype html><html lang=\"en\"><head><meta charset=\"utf-8\"><meta name=\"viewport\" content=\"width=device-width,initial-scale=1\"><meta name=\"color-scheme\" content=\"light\"><title>"@;
    assert(text::ends_with(head, "<title>"@)) by {
        reveal_strlit(
            "<!doctype html><html lang=\"en\"><head><meta charset=\"utf-8\"><meta name=\"viewport\" content=\"width=device-width,initial-scale=1\"><meta name=\"color-scheme\" content=\"light\"><title>",
        );
        reveal_strlit("<title>");
        assert(head.skip(head.len() - 7) == "<title>"@);
    }
    let shown = html::escaped(title, true);
    text::lemma_ends_more(head, "<title>"@, shown);
    text::lemma_ends_more(head + shown, "<title>"@ + shown, "</title>"@);
    let part = "<title>"@ + shown + "</title>"@;
    text::lemma_end_is_inside(head + shown + "</title>"@, part);
    let nothing = Seq::<char>::empty();
    text::lemma_inside_stays(head + shown + "</title>"@, part, nothing, "<style>"@);
    assert(head + shown + "</title>"@ + "<style>"@ == head + shown + "</title><style>"@) by {
        reveal_strlit("</title><style>");
        reveal_strlit("</title>");
        reveal_strlit("<style>");
        assert("</title><style>"@ == "</title>"@ + "<style>"@);
    }
    let s1 = head + shown + "</title><style>"@;
    text::lemma_inside_stays(s1, part, nothing, WEB_STYLE@);
    text::lemma_inside_stays(s1 + WEB_STYLE@, part, nothing, "</style></head><body>"@);
    let s2 = s1 + WEB_STYLE@ + "</style></head><body>"@;
    text::lemma_inside_stays(s2, part, nothing, body);
    text::lemma_inside_stays(s2 + body, part, nothing, "</body></html>"@);
}

/// The page of a note shows its label as a heading and below it the text, both as
/// they are but escaped, and links to the file.
pub proof fn law_a_note_page_shows_the_note(label: Seq<char>, contents: Seq<char>)
    ensures
        text::occurs_in(
            note_text(label, contents),
            "<h1>"@ + html::escaped(label, true) + "</h1><pre>"@ + html::escaped(contents, true)
                + "</pre>"@,
        ),
        text::occurs_in(
            note_text(label, contents),
            "<a href=\"/download/"@ + link(label) + "\">DOWNLOAD</a>"@,
        ),
{
    let nothing = Seq::<char>::empty();
    let title = html::escaped(label, true);
    let shown = html::escaped(contents, true);
    let nav =
        "<nav class=\"topbar\"><a href=\"/\">← ALL NOTES</a><span>QUIETWRITE / VIEWER</span><a href=\"/download/"@;
    let bar =
        "\">DOWNLOAD</a></nav><main class=\"document\"><div class=\"section-label\">MARKDOWN / READ ONLY</div><h1>"@;
    let bar_rest =
        "</nav><main class=\"document\"><div class=\"section-label\">MARKDOWN / READ ONLY</div><h1>"@;
    assert(text::ends_with(nav, "<a href=\"/download/"@)) by {
        reveal_strlit(
            "<nav class=\"topbar\"><a href=\"/\">← ALL NOTES</a><span>QUIETWRITE / VIEWER</span><a href=\"/download/",
        );
        reveal_strlit("<a href=\"/download/");
        assert(nav.skip(nav.len() - "<a href=\"/download/"@.len()) == "<a href=\"/download/"@);
    }
    assert(text::ends_with(bar, "<h1>"@) && bar == "\">DOWNLOAD</a>"@ + bar_rest) by {
        reveal_strlit(
            "\">DOWNLOAD</a></nav><main class=\"document\"><div class=\"section-label\">MARKDOWN / READ ONLY</div><h1>",
        );
        reveal_strlit(
            "</nav><main class=\"document\"><div class=\"section-label\">MARKDOWN / READ ONLY</div><h1>",
        );
        reveal_strlit("\">DOWNLOAD</a>");
        reveal_strlit("<h1>");
        assert(bar.skip(bar.len() - 4) == "<h1>"@);
    }
    assert("</pre></main>"@ == "</pre>"@ + "</main>"@) by {
        reveal_strlit("</pre></main>");
        reveal_strlit("</pre>");
        reveal_strlit("</main>");
    }
    let top = nav + link(label) + bar;
    let body = top + title + "</h1><pre>"@ + shown + "</pre></main>"@;
    text::lemma_ends_behind(nav + link(label), bar, "<h1>"@);
    text::lemma_ends_more(top, "<h1>"@, title);
    text::lemma_ends_more(top + title, "<h1>"@ + title, "</h1><pre>"@);
    text::lemma_ends_more(
        top + title + "</h1><pre>"@,
        "<h1>"@ + title + "</h1><pre>"@,
        shown,
    );
    let most = top + title + "</h1><pre>"@ + shown;
    text::lemma_ends_more(most, "<h1>"@ + title + "</h1><pre>"@ + shown, "</pre>"@);
    let part = "<h1>"@ + title + "</h1><pre>"@ + shown + "</pre>"@;
    text::lemma_end_is_inside(most + "</pre>"@, part);
    text::lemma_inside_stays(most + "</pre>"@, part, nothing, "</main>"@);
    assert(most + "</pre>"@ + "</main>"@ == body);
    lemma_body_is_on_the_page(label, body, part);
    let file = "<a href=\"/download/"@ + link(label) + "\">DOWNLOAD</a>"@;
    text::lemma_ends_more(nav, "<a href=\"/download/"@, link(label));
    text::lemma_ends_more(nav + link(label), "<a href=\"/download/"@ + link(label), "\">DOWNLOAD</a>"@);
    text::lemma_end_is_inside(nav + link(label) + "\">DOWNLOAD</a>"@, file);
    text::lemma_inside_stays(nav + link(label) + "\">DOWNLOAD</a>"@, file, nothing, bar_rest);
    assert(nav + link(label) + "\">DOWNLOAD</a>"@ + bar_rest == top);
    text::lemma_inside_stays(top, file, nothing, title);
    text::lemma_inside_stays(top + title, file, nothing, "</h1><pre>"@);
    text::lemma_inside_stays(top + title + "</h1><pre>"@, file, nothing, shown);
    text::lemma_inside_stays(most, file, nothing, "</pre></main>"@);
    lemma_body_is_on_the_page(label, body, file);
}

/// The index has an entry for every note, in their order: with its label, escaped,
/// that leads to the note, and a link to the file.
pub proof fn law_the_index_lists_every_note(labels: Seq<Seq<char>>, k: int)
    requires
        0 <= k < labels.len(),
    ensures
        index_entries(labels, labels.len() as int) == index_entries(labels, k) + index_entry(
            labels[k],
        ) + index_entries(labels.skip(k + 1), labels.len() - k - 1),
        index_entry(labels[k]) == "<li><a href=\"/view/"@ + link(labels[k]) + "\">"@
            + html::escaped(labels[k], true) + "</a><a class=\"download\" href=\"/download/"@ + link(
            labels[k],
        ) + "\">Download</a></li>"@,
{
    lemma_entries_join(labels, k + 1, labels.len() as int);
}

/// The index shows its entries as a list, and how many notes there are; where
/// there are none, it says so.
pub proof fn law_the_index_shows_its_entries(labels: Seq<Seq<char>>)
    ensures
        labels.len() > 0 ==> text::occurs_in(
            index_text(labels),
            "<ul>"@ + index_entries(labels, labels.len() as int) + "</ul>"@,
        ),
        labels.len() == 0 ==> text::occurs_in(
            index_text(labels),
            "<ul>"@ + "<p class=\"empty\">NO ORDINARY MARKDOWN NOTES FOUND.</p>"@ + "</ul>"@,
        ),
        text::occurs_in(
            index_text(labels),
            "<strong>"@ + two_digits(labels.len()) + " FILES</strong>"@,
        ),
{
    let nothing = Seq::<char>::empty();
    let mast =
        "<header class=\"masthead\"><div class=\"eyebrow\">LOCAL NETWORK / READ ONLY</div><h1>QUIET<br>WRITE</h1><p>ORDINARY NOTES <strong>"@;
    let main =
        " FILES</strong></p></header><main class=\"library\"><div class=\"section-label\">NOTE INDEX</div><ul>"@;
    let main_rest =
        "</p></header><main class=\"library\"><div class=\"section-label\">NOTE INDEX</div><ul>"@;
    assert(text::ends_with(mast, "<strong>"@)) by {
        reveal_strlit(
            "<header class=\"masthead\"><div class=\"eyebrow\">LOCAL NETWORK / READ ONLY</div><h1>QUIET<br>WRITE</h1><p>ORDINARY NOTES <strong>",
        );
        reveal_strlit("<strong>");
        assert(mast.skip(mast.len() - 8) == "<strong>"@);
    }
    assert(text::ends_with(main, "<ul>"@) && main == " FILES</strong>"@ + main_rest) by {
        reveal_strlit(
            " FILES</strong></p></header><main class=\"library\"><div class=\"section-label\">NOTE INDEX</div><ul>",
        );
        reveal_strlit(
            "</p></header><main class=\"library\"><div class=\"section-label\">NOTE INDEX</div><ul>",
        );
        reveal_strlit("<ul>");
        reveal_strlit(" FILES</strong>");
        assert(main.skip(main.len() - 4) == "<ul>"@);
    }
    assert("</ul></main>"@ == "</ul>"@ + "</main>"@) by {
        reveal_strlit("</ul></main>");
        reveal_strlit("</ul>");
        reveal_strlit("</main>");
    }
    let count = two_digits(labels.len());
    let entries = if labels.len() == 0 {
        "<p class=\"empty\">NO ORDINARY MARKDOWN NOTES FOUND.</p>"@
    } else {
        index_entries(labels, labels.len() as int)
    };
    let top = mast + count + main;
    let body = top + entries + "</ul></main>"@;
    let title = "QuietWrite library"@;
    text::lemma_ends_behind(mast + count, main, "<ul>"@);
    text::lemma_ends_more(top, "<ul>"@, entries);
    text::lemma_ends_more(top + entries, "<ul>"@ + entries, "</ul>"@);
    let part = "<ul>"@ + entries + "</ul>"@;
    text::lemma_end_is_inside(top + entries + "</ul>"@, part);
    text::lemma_inside_stays(top + entries + "</ul>"@, part, nothing, "</main>"@);
    assert(top + entries + "</ul>"@ + "</main>"@ == body);
    lemma_body_is_on_the_page(title, body, part);
    let number = "<strong>"@ + count + " FILES</strong>"@;
    text::lemma_ends_more(mast, "<strong>"@, count);
    text::lemma_ends_more(mast + count, "<strong>"@ + count, " FILES</strong>"@);
    text::lemma_end_is_inside(mast + count + " FILES</strong>"@, number);
    text::lemma_inside_stays(mast + count + " FILES</strong>"@, number, nothing, main_rest);
    assert(mast + count + " FILES</strong>"@ + main_rest == top);
    text::lemma_inside_stays(top, number, nothing, entries);
    text::lemma_inside_stays(top + entries, number, nothing, "</ul></main>"@);
    lemma_body_is_on_the_page(title, body, number);
}

proof fn lemma_entries_join(labels: Seq<Seq<char>>, k: int, count: int)
    requires
        0 <= k <= count <= labels.len(),
    ensures
        index_entries(labels, count) == index_entries(labels, k) + index_entries(
            labels.skip(k),
            count - k,
        ),
    decreases count,
{
    if count == k {
        assert(index_entries(labels, k) + Seq::<char>::empty() == index_entries(labels, k));
    } else {
        lemma_entries_join(labels, k, count - 1);
        assert(labels.skip(k)[count - k - 1] == labels[count - 1]);
        assert(index_entries(labels, k) + index_entries(labels.skip(k), count - 1 - k)
            + index_entry(labels[count - 1]) == index_entries(labels, k) + (index_entries(
            labels.skip(k),
            count - 1 - k,
        ) + index_entry(labels[count - 1])));
    }
}

/// The number of notes has two digits at least.
pub proof fn law_notes_are_counted_in_two_digits(n: nat)
    ensures
        n < 10 ==> two_digits(n) == seq!['0', ('0' as int + n) as char],
        n >= 10 ==> two_digits(n) == text::decimal(n),
        text::number(two_digits(n)) == n,
{
    reveal_strlit("0");
    text::lemma_decimal(n);
    if n < 10 {
        reveal_with_fuel(text::decimal, 2);
        reveal_with_fuel(text::number, 3);
        assert(text::decimal(n).len() == 1);
        assert(text::decimal(n)[0] == ('0' as int + n) as char);
        assert(two_digits(n) == seq!['0', ('0' as int + n) as char]);
        assert(two_digits(n).drop_last() == seq!['0']);
        assert(seq!['0'].drop_last() == Seq::<char>::empty());
    }
}

/// The page that asks for the code has a form that sends it to where codes are
/// taken. After a wrong one it also says that access is denied.
pub proof fn law_the_login_page_asks_for_the_code(failed: bool)
    ensures
        text::occurs_in(
            login_text(failed),
            "<form method=\"post\" action=\"/login\"><label>ACCESS CODE<input name=\"code\" "@,
        ),
        text::occurs_in(
            login_text(true),
            "<p class=\"error\">ACCESS DENIED — CHECK THE CODE.</p>"@,
        ),
        login_text(true).len() == login_text(false).len()
            + "<p class=\"error\">ACCESS DENIED — CHECK THE CODE.</p>"@.len(),
{
    let nothing = Seq::<char>::empty();
    let card =
        "<main class=\"login\"><section class=\"login-card\"><div class=\"eyebrow\">PRIVATE DEVICE LINK / 8787</div><h1>QUIET<br>WRITE</h1><p>ENTER THE ACCESS CODE SHOWN ON THE WRITING DEVICE.</p>"@;
    let denied = "<p class=\"error\">ACCESS DENIED — CHECK THE CODE.</p>"@;
    let form =
        "<form method=\"post\" action=\"/login\"><label>ACCESS CODE<input name=\"code\" autocomplete=\"one-time-code\" inputmode=\"text\" autofocus required></label><button type=\"submit\">OPEN LIBRARY →</button></form><p class=\"small\">ORDINARY NOTES ONLY / READ ONLY</p></section></main>"@;
    let start = "<form method=\"post\" action=\"/login\"><label>ACCESS CODE<input name=\"code\" "@;
    let rest =
        "autocomplete=\"one-time-code\" inputmode=\"text\" autofocus required></label><button type=\"submit\">OPEN LIBRARY →</button></form><p class=\"small\">ORDINARY NOTES ONLY / READ ONLY</p></section></main>"@;
    assert(form == start + rest) by {
        reveal_strlit(
            "<form method=\"post\" action=\"/login\"><label>ACCESS CODE<input name=\"code\" autocomplete=\"one-time-code\" inputmode=\"text\" autofocus required></label><button type=\"submit\">OPEN LIBRARY →</button></form><p class=\"small\">ORDINARY NOTES ONLY / READ ONLY</p></section></main>",
        );
        reveal_strlit(
            "<form method=\"post\" action=\"/login\"><label>ACCESS CODE<input name=\"code\" ",
        );
        reveal_strlit(
            "autocomplete=\"one-time-code\" inputmode=\"text\" autofocus required></label><button type=\"submit\">OPEN LIBRARY →</button></form><p class=\"small\">ORDINARY NOTES ONLY / READ ONLY</p></section></main>",
        );
    }
    reveal_strlit("");
    assert(start.skip(0) == start && denied.skip(0) == denied);
    text::lemma_end_is_inside(start, start);
    text::lemma_end_is_inside(denied, denied);
    text::lemma_inside_stays(start, start, nothing, rest);
    let said = if failed {
        denied
    } else {
        ""@
    };
    let title = "QuietWrite access"@;
    text::lemma_inside_stays(form, start, card + said, nothing);
    lemma_body_is_on_the_page(title, card + said + form, start);
    text::lemma_inside_stays(denied, denied, card, nothing);
    text::lemma_inside_stays(card + denied, denied, nothing, form);
    lemma_body_is_on_the_page(title, card + denied + form, denied);
}

/// The label of a note is the way to it from the writing directory, with slashes
/// between the names.
pub proof fn law_labels_lead_down_from_the_directory(
    directory: path::PathView,
    names: Seq<Seq<char>>,
    name: Seq<char>,
)
    ensures
        ({
            let folder = path::PathView {
                root: directory.root,
                parts: directory.parts + names,
            };
            &&& names.len() == 0 ==> label_of(directory, folder.joined(name)) == name
            &&& names.len() > 0 ==> label_of(directory, folder.joined(name)) == label_of(
                directory,
                folder,
            ) + seq!['/'] + name
        }),
{
    reveal_strlit("/");
    assert("/"@ == seq!['/']);
    let folder = path::PathView { root: directory.root, parts: directory.parts + names };
    let skip = directory.parts.len() as int;
    assert(folder.joined(name).parts.skip(skip) == names.push(name));
    assert(folder.parts.skip(skip) == names);
    assert(names.push(name).drop_last() == names);
}

/// No note is shared from the encrypted shelf, from among the hidden files, from
/// the archive or from the exports: whatever the way to it, the name below the
/// root where it really lies is none of these.
pub proof fn law_four_folders_are_kept_back(
    directory: path::PathView,
    root: path::PathView,
    files: Seq<CandidateView>,
    k: int,
)
    requires
        0 <= k < shared_notes(directory, Some(root), files).len(),
    ensures
        ({
            let place = shared_notes(directory, Some(root), files)[k].0;
            let depth = root.parts.len() as int;
            &&& place.root == root.root
            &&& place.parts.len() >= depth
            &&& place.parts.take(depth) == root.parts
            &&& place.parts.len() > depth ==> place.parts[depth] != "Secret Thoughts"@
                && place.parts[depth] != ".quietwrite"@ && place.parts[depth] != "Archive"@
                && place.parts[depth] != "Exports"@
        }),
{
    law_shared_notes_are_ordinary(directory, root, files, k);
    let place = shared_notes(directory, Some(root), files)[k].0;
    let depth = root.parts.len() as int;
    assert(place.parts.take(depth) == root.parts);
    if place.parts.len() > depth {
        let name = place.parts[depth];
        let folder = root.joined(name);
        assert(place.parts.take(depth + 1) == folder.parts);
        assert(place.below(folder));
    }
}

proof fn lemma_read_in(
    directory: path::PathView,
    root: path::PathView,
    folder: path::PathView,
    recursive: bool,
    files: Seq<CandidateView>,
    count: int,
    i: int,
)
    requires
        0 <= i < count <= files.len(),
        shelf::note_in(folder, recursive, files[i].entry),
        may_be_read(directory, root, files[i]),
    ensures
        readable_in(directory, root, folder, recursive, files, count).contains(
            (files[i].canonical->0, label_of(directory, files[i].entry.place)),
        ),
    decreases count,
{
    let all = readable_in(directory, root, folder, recursive, files, count);
    let note = (files[i].canonical->0, label_of(directory, files[i].entry.place));
    if i < count - 1 {
        lemma_read_in(directory, root, folder, recursive, files, count - 1, i);
        let before = readable_in(directory, root, folder, recursive, files, count - 1);
        let k = choose|k: int| 0 <= k < before.len() && before[k] == note;
        assert(all[k] == note);
    } else {
        assert(all[all.len() - 1] == note);
    }
}

proof fn lemma_read(
    directory: path::PathView,
    root: path::PathView,
    files: Seq<CandidateView>,
    count: int,
    shelf_index: int,
    i: int,
)
    requires
        0 <= i < files.len(),
        may_be_read(directory, root, files[i]),
        shelf_index == -1 && shelf::note_in(directory, false, files[i].entry) || 0 <= shelf_index
            < count && shelf::note_in(
            shelf::category_folder(directory, shelf_index),
            true,
            files[i].entry,
        ),
        count >= 0,
    ensures
        readable(directory, root, files, count).contains(
            (files[i].canonical->0, label_of(directory, files[i].entry.place)),
        ),
    decreases count,
{
    let total = files.len() as int;
    let note = (files[i].canonical->0, label_of(directory, files[i].entry.place));
    let all = readable(directory, root, files, count);
    if count == 0 {
        lemma_read_in(directory, root, directory, false, files, total, i);
    } else {
        let before = readable(directory, root, files, count - 1);
        let folder = shelf::category_folder(directory, count - 1);
        let more = readable_in(directory, root, folder, true, files, total);
        if shelf_index == count - 1 {
            lemma_read_in(directory, root, folder, true, files, total, i);
            let k = choose|k: int| 0 <= k < more.len() && more[k] == note;
            assert(all[before.len() + k] == note);
        } else {
            lemma_read(directory, root, files, count - 1, shelf_index, i);
            let k = choose|k: int| 0 <= k < before.len() && before[k] == note;
            assert(all[k] == note);
        }
    }
}

proof fn lemma_repeats_keep_files(notes: Seq<SafeView>, k: int)
    requires
        0 <= k < notes.len(),
    ensures
        without_repeats(notes).len() > 0,
        without_repeats(notes).last().0 == notes.last().0,
        exists|i: int|
            0 <= i < without_repeats(notes).len() && (#[trigger] without_repeats(notes)[i]).0
                == notes[k].0,
    decreases notes.len(),
{
    let less = notes.drop_last();
    let before = without_repeats(less);
    let all = without_repeats(notes);
    if k < less.len() {
        lemma_repeats_keep_files(less, k);
        let i = choose|i: int| 0 <= i < before.len() && (#[trigger] before[i]).0 == less[k].0;
        assert(all[i] == before[i]);
    } else {
        assert(all[all.len() - 1].0 == notes[k].0);
    }
}

/// The library misses no ordinary note: a Markdown file in the writing directory
/// itself, or at any depth in one of the first six folders, is listed if it really
/// lies below the root, at no place kept back, and the way to it only leads down.
pub proof fn law_the_library_misses_no_note(
    directory: path::PathView,
    root: path::PathView,
    files: Seq<CandidateView>,
    i: int,
    folder: Seq<char>,
    between: Seq<Seq<char>>,
    stem: Seq<char>,
)
    requires
        0 <= i < files.len(),
        files[i].entry.is_file,
        stem.len() > 0,
        folder == "Notes"@ || folder == "Drafts"@ || folder == "Journal"@ || folder == "Poems"@
            || folder == "Ideas"@ || folder == "Projects"@,
        files[i].entry.place == directory.joined(stem + seq!['.', 'm', 'd'])
            || files[i].entry.place == (path::PathView {
            root: directory.root,
            parts: directory.parts + seq![folder] + between + seq![stem + seq!['.', 'm', 'd']],
        }),
        may_be_read(directory, root, files[i]),
    ensures
        exists|k: int|
            0 <= k < shared_notes(directory, Some(root), files).len() && (
            #[trigger] shared_notes(directory, Some(root), files)[k]).0 == files[i].canonical->0,
{
    let name = stem + seq!['.', 'm', 'd'];
    let place = files[i].entry.place;
    path::law_names_are_cut_at_the_last_dot(stem, Seq::empty());
    reveal_strlit("..");
    assert(name.len() >= 4 && ".."@.len() == 2);
    assert(place.parts.last() == name);
    assert(place.markdown());
    let index = if folder == "Notes"@ {
        0int
    } else if folder == "Drafts"@ {
        1
    } else if folder == "Journal"@ {
        2
    } else if folder == "Poems"@ {
        3
    } else if folder == "Ideas"@ {
        4
    } else {
        5
    };
    let target = directory.joined(folder);
    assert(shelf::category_folder(directory, index) == target);
    let chosen = if place == directory.joined(name) {
        -1int
    } else {
        index
    };
    if chosen == -1 {
        assert(place.parts.take(directory.parts.len() as int) == directory.parts);
        assert(shelf::note_in(directory, false, files[i].entry));
    } else {
        assert(place.parts.take(target.parts.len() as int) == target.parts);
        assert(shelf::note_in(target, true, files[i].entry));
    }
    lemma_read(directory, root, files, ORDINARY_FOLDERS as int, chosen, i);
    let all = readable(directory, root, files, ORDINARY_FOLDERS as int);
    let note = (files[i].canonical->0, label_of(directory, place));
    let at_most = |a: SafeView, b: SafeView| label_at_most(a, b);
    order::law_sorting_by_keeps_members(all, at_most, note);
    let sorted = order::sorted_by(all, at_most);
    let at = choose|at: int| 0 <= at < sorted.len() && sorted[at] == note;
    lemma_repeats_keep_files(sorted, at);
    assert(shared_notes(directory, Some(root), files) == without_repeats(sorted));
}

/// The library lists its notes by the characters of their labels in lower case: at
/// the first at which two of them differ, that of the earlier note is smaller.
pub proof fn law_labels_are_ordered_by_their_characters(
    directory: path::PathView,
    root: path::PathView,
    files: Seq<CandidateView>,
    i: int,
    j: int,
    c: int,
)
    requires
        0 <= i < j < shared_notes(directory, Some(root), files).len(),
        ({
            let a = text::lowercase(shared_notes(directory, Some(root), files)[i].1);
            let b = text::lowercase(shared_notes(directory, Some(root), files)[j].1);
            &&& 0 <= c <= a.len()
            &&& c <= b.len()
            &&& a.take(c) == b.take(c)
            &&& a != b
            &&& c == a.len() || c == b.len() || a[c] != b[c]
        }),
    ensures
        ({
            let a = text::lowercase(shared_notes(directory, Some(root), files)[i].1);
            let b = text::lowercase(shared_notes(directory, Some(root), files)[j].1);
            c < b.len() && (c < a.len() ==> a[c] < b[c])
        }),
{
    law_shared_notes_are_ordered(directory, root, files, i, j);
    let a = text::lowercase(shared_notes(directory, Some(root), files)[i].1);
    let b = text::lowercase(shared_notes(directory, Some(root), files)[j].1);
    text::law_texts_are_ordered_by_their_characters(b, a, c);
    if c == a.len() && c == b.len() {
        assert(a.take(c) == a && b.take(c) == b);
    }
}

/// Different notes have different links, and a link that is no label leads to
/// nothing.
pub proof fn law_links_tell_labels_apart(
    a: Seq<char>,
    b: Seq<char>,
    notes: Seq<SafeView>,
)
    ensures
        link(a) == link(b) ==> a == b,
        (forall|k: int| 0 <= k < notes.len() ==> (#[trigger] notes[k]).1 != a) ==> linked_note(
            notes,
            link(a),
        ) is None,
        link(a).len() == 2 * vstd::utf8::encode_utf8(a).len(),
{
    hex::law_hex_reads_back(vstd::utf8::encode_utf8(a));
    hex::law_hex_reads_back(vstd::utf8::encode_utf8(b));
    vstd::utf8::encode_utf8_decode_utf8(a);
    vstd::utf8::encode_utf8_decode_utf8(b);
    vstd::utf8::encode_utf8_valid_utf8(a);
    if forall|k: int| 0 <= k < notes.len() ==> (#[trigger] notes[k]).1 != a {
        lemma_no_such_label(notes, a, 0);
    }
}

proof fn lemma_no_such_label(notes: Seq<SafeView>, label: Seq<char>, at: int)
    requires
        0 <= at,
        forall|k: int| 0 <= k < notes.len() ==> (#[trigger] notes[k]).1 != label,
    ensures
        note_with_label(notes, label, at) is None,
    decreases notes.len() - at,
{
    if at < notes.len() {
        lemma_no_such_label(notes, label, at + 1);
    }
}

/// A library begins with the code that was drawn for it and shows where it will be
/// reached; where one of the draws failed, it says which and changes nothing else.
pub proof fn law_a_library_begins_with_its_draws(
    state: ShareView,
    url: Seq<char>,
    code: Seq<char>,
    key: Seq<char>,
    why: Seq<char>,
    other: Result<Seq<char>, Seq<char>>,
)
    ensures
        begun(state, url, Ok(code), Ok(key)) == (ShareView {
            running: false,
            starting: true,
            url,
            code,
            message: "Starting read-only Wi-Fi library…"@,
        }),
        begun(state, url, Err(why), other) == (ShareView {
            message: "Could not create a secure access code: "@ + why,
            ..state
        }),
        begun(state, url, Ok(code), Err(why)) == (ShareView {
            message: "Could not create a secure browser session: "@ + why,
            ..state
        }),
        share_off() == (ShareView {
            running: false,
            starting: false,
            url: Seq::empty(),
            code: Seq::empty(),
            message: "Wi-Fi sharing is off"@,
        }),
{
}

/// Every start and stop is counted.
pub proof fn law_starts_and_stops_are_counted(share: WebShare, generation: u64)
    ensures
        generation < u64::MAX ==> next_generation(generation) == generation + 1,
        next_generation(u64::MAX) == 0,
        next_generation(generation) != generation,
        share.lives(generation) <==> !share.stop && share.generation == generation,
{
}

/// The way to a note that may be read leads down from the writing directory: no name
/// on it is empty or leads elsewhere. A name of any other kind is no hindrance.
pub proof fn law_the_way_to_a_note_leads_down(
    directory: path::PathView,
    root: path::PathView,
    file: CandidateView,
    i: int,
    name: Seq<char>,
)
    ensures
        may_be_read(directory, root, file) && directory.parts.len() <= i
            < file.entry.place.parts.len() ==> file.entry.place.parts[i].len() > 0
            && file.entry.place.parts[i] != "."@ && file.entry.place.parts[i] != ".."@,
        name.len() > 0 && name != "."@ && name != ".."@ ==> ordinary_name(name),
        !ordinary_name(Seq::empty()) && !ordinary_name("."@) && !ordinary_name(".."@),
{
    if may_be_read(directory, root, file) && directory.parts.len() <= i
        < file.entry.place.parts.len() {
        assert(ordinary_name(file.entry.place.parts[i]));
    }
}

} // verus!
