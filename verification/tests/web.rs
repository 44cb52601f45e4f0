use quietwrite::hex::hex_encode;
use quietwrite::path::NotePath;
use quietwrite::shelf::FileEntry;
use quietwrite::web_request::{
    authenticated, form_value, handle_in_session, handle_request, percent_decode, percent_decode_bytes,
    respond_download, respond_file, respond_html, respond_index, respond_text, respond_view, Method,
    Step, WebRequest, WebResponse,
};
use quietwrite::web_share::{
    access_code, access_code_of, device_hostname, html_escape, index_page, login_page, note_page,
    random_access_code, random_session_key, resolve_note, safe_hostname, safe_notes, session_key_of,
    share_urls, Candidate, SafeNote, ShareState, WebShare,
};

fn place(path: &str) -> NotePath {
    NotePath {
        root: "/".into(),
        parts: path.split('/').filter(|part| !part.is_empty()).map(String::from).collect(),
    }
}

fn candidate(path: &str, canonical: Option<&str>) -> Candidate {
    Candidate {
        entry: FileEntry { place: place(path), is_file: true, modified: 0 },
        canonical: canonical.map(place),
    }
}

fn request(method: Method, url: &str, cookie: Option<&str>, body: &str) -> WebRequest {
    WebRequest {
        method,
        url: url.into(),
        headers: cookie.iter().map(|value| ("Cookie".to_string(), value.to_string())).collect(),
        body: body.into(),
    }
}

fn answer(step: Step) -> WebResponse {
    match step {
        Step::Respond(response) => response,
        other => panic!("{other:?}"),
    }
}

fn text_of(response: &WebResponse) -> String {
    String::from_utf8(response.body.clone()).unwrap()
}

fn header<'a>(response: &'a WebResponse, name: &str) -> Option<&'a str> {
    response.headers.iter().find(|(field, _)| field == name).map(|(_, value)| value.as_str())
}

#[test]
fn escaping_and_form_decoding_are_safe() {
    assert_eq!(html_escape("<script>&\""), "&lt;script&gt;&amp;&quot;");
    assert_eq!(
        form_value("code=ABCD-EFGH", "code").as_deref(),
        Some("ABCD-EFGH")
    );
    assert_eq!(percent_decode("A%2DB+C"), "A-B C");
}

#[test]
fn web_pages_use_the_responsive_brutalist_visual_system() {
    let login = login_page(false);
    assert!(login.contains("PRIVATE DEVICE LINK / 8787"));
    assert!(login.contains("--signal:#ff4d28"));
    assert!(login.contains("border:4px solid var(--ink)"));
    assert!(login.contains("box-shadow:9px 9px 0 var(--ink)"));
    assert!(login.contains("@media(max-width:620px)"));
    assert!(login.contains("<html lang=\"en\">"));
    assert!(!login.contains("border-radius:8px"));
    assert!(!login.contains("repeating-linear-gradient"));
    assert!(!login.contains("--acid:"));
}

#[test]
fn safe_notes_excludes_secrets_internal_files_and_outside_symlinks() {
    let directory = place("/desk");
    let files = vec![
        candidate("/desk/Notes/visible.md", Some("/desk/Notes/visible.md")),
        candidate("/desk/Secret Thoughts/private.md", Some("/desk/Secret Thoughts/private.md")),
        candidate("/desk/.quietwrite/Trash/deleted.md", Some("/desk/.quietwrite/Trash/deleted.md")),
        candidate("/desk/Notes/link.md", Some("/outside/outside.md")),
        candidate("/desk/Notes/gone.md", None),
        candidate("/desk/Notes/text.txt", Some("/desk/Notes/text.txt")),
        candidate("/desk/Notes/twist.md", Some("/desk/Secret Thoughts/private.md")),
    ];
    let notes = safe_notes(&directory, Some(&directory), &files);
    assert_eq!(notes.len(), 1);
    assert_eq!(notes[0].label, "Notes/visible.md");
    let encoded = hex_encode(notes[0].label.as_bytes());
    assert_eq!(resolve_note(&notes, &encoded), Some(0));
    assert!(resolve_note(&notes, &hex_encode(b"../outside.md")).is_none());
    assert!(resolve_note(&notes, "zz").is_none());
    assert!(safe_notes(&directory, None, &files).is_empty());
}

#[test]
fn shared_notes_are_listed_by_lower_case_label_and_once() {
    let directory = place("/desk");
    let files = vec![
        candidate("/desk/Notes/beta.md", Some("/desk/Notes/beta.md")),
        candidate("/desk/Notes/Alpha.md", Some("/desk/Notes/Alpha.md")),
        candidate("/desk/root.md", Some("/desk/root.md")),
        candidate("/desk/Projects/Book/one.md", Some("/desk/Projects/Book/one.md")),
        candidate("/desk/Notes/beta2.md", Some("/desk/Notes/beta.md")),
    ];
    let notes = safe_notes(&directory, Some(&directory), &files);
    let labels: Vec<&str> = notes.iter().map(|note| note.label.as_str()).collect();
    assert_eq!(labels, vec!["Notes/Alpha.md", "Notes/beta.md", "Projects/Book/one.md", "root.md"]);
    for (k, note) in notes.iter().enumerate() {
        assert_eq!(resolve_note(&notes, &hex_encode(note.label.as_bytes())), Some(k));
    }
}

#[test]
fn access_codes_have_readable_high_entropy_shape() {
    let code = random_access_code().unwrap();
    assert_eq!(code.len(), 9);
    assert_eq!(code.chars().nth(4), Some('-'));
    assert!(code
        .chars()
        .filter(|character| *character != '-')
        .all(|character| character.is_ascii_uppercase() || character.is_ascii_digit()));
    assert_eq!(random_session_key().unwrap().len(), 48);
}

#[test]
fn access_codes_spell_their_bytes() {
    assert_eq!(access_code(&vec![0, 1, 2, 3, 28, 29, 30, 31]), "ABCD-6789");
    assert_eq!(access_code(&vec![32, 8, 13, 24, 255, 23, 22, 64]), "AJP2-9ZYA");
    assert_ne!(random_session_key().unwrap(), random_session_key().unwrap());
    assert_eq!(access_code_of(Ok(vec![0; 8])), Ok("AAAA-AAAA".to_string()));
    assert_eq!(access_code_of(Err("no source".into())), Err("no source".to_string()));
    assert_eq!(session_key_of(Ok(vec![255; 24])), Ok("f".repeat(48)));
    assert_eq!(session_key_of(Err("no source".into())), Err("no source".to_string()));
}

#[test]
fn live_server_requires_code_and_serves_only_safe_notes() {
    let directory = place("/desk");
    let notes = safe_notes(
        &directory,
        Some(&directory),
        &vec![
            candidate("/desk/Notes/visible.md", Some("/desk/Notes/visible.md")),
            candidate("/desk/Secret Thoughts/private.md", Some("/desk/Secret Thoughts/private.md")),
        ],
    );
    let code = random_access_code().unwrap();
    let session_key = random_session_key().unwrap();

    let unauthenticated =
        answer(handle_request(&request(Method::Get, "/", None, ""), &code, &session_key));
    assert_eq!(unauthenticated.status, 401);
    assert!(!text_of(&unauthenticated).contains("a visible sentence"));

    let login = answer(handle_request(
        &request(Method::Post, "/login", None, &format!("code={}", code.to_lowercase())),
        &code,
        &session_key,
    ));
    assert_eq!(login.status, 303);
    assert!(header(&login, "Set-Cookie")
        .unwrap()
        .contains(&format!("qw_session={session_key}")));
    assert_eq!(header(&login, "Location"), Some("/"));

    let granted = header(&login, "Set-Cookie").unwrap().split(';').next().unwrap();
    assert!(authenticated(&vec![("Cookie".to_string(), granted.to_string())], &session_key));

    let cookie = format!("qw_session={session_key}");
    let step = handle_request(&request(Method::Get, "/", Some(&cookie), ""), &code, &session_key);
    assert!(matches!(step, Step::Index));
    let index = respond_index(&notes);
    assert_eq!(index.status, 200);
    assert!(header(&index, "Content-Security-Policy").is_some());
    assert_eq!(header(&index, "X-Content-Type-Options"), Some("nosniff"));
    assert!(text_of(&index).contains("Notes/visible.md"));
    assert!(text_of(&index).contains("01 FILES"));
    assert!(!text_of(&index).contains("private.md"));

    let encoded = hex_encode(b"Notes/visible.md");
    let step = handle_request(
        &request(Method::Get, &format!("/download/{encoded}?x=1"), Some(&cookie), ""),
        &code,
        &session_key,
    );
    match step {
        Step::Download(asked) => assert_eq!(resolve_note(&notes, &asked), Some(0)),
        other => panic!("{other:?}"),
    }
    let download = respond_file("Notes/visible.md", Some(b"a visible sentence".to_vec()));
    assert_eq!(download.status, 200);
    assert_eq!(text_of(&download), "a visible sentence");
    assert_eq!(
        header(&download, "Content-Disposition"),
        Some("attachment; filename=\"visible.md\"")
    );
}

#[test]
fn strangers_and_writers_are_turned_away() {
    let key = "0123";
    let wrong = answer(handle_request(
        &request(Method::Post, "/login", None, "code=WRONG"),
        "ABCD-EFGH",
        key,
    ));
    assert_eq!(wrong.status, 403);
    assert!(text_of(&wrong).contains("ACCESS DENIED"));
    let step = handle_request(
        &request(Method::Post, "/", Some("a=b; qw_session=0123"), ""),
        "ABCD-EFGH",
        key,
    );
    let refused = answer(step);
    assert_eq!(refused.status, 405);
    assert_eq!(text_of(&refused), "Read-only server: GET requests only");
    let lost = answer(handle_request(
        &request(Method::Get, "/elsewhere", Some("qw_session=0123"), ""),
        "ABCD-EFGH",
        key,
    ));
    assert_eq!(lost.status, 404);
    assert_eq!(text_of(&lost), "Not found");
    let other = answer(handle_request(
        &request(Method::Other, "/", Some("qw_session=9999"), ""),
        "ABCD-EFGH",
        key,
    ));
    assert_eq!(other.status, 401);
    match handle_request(
        &request(Method::Get, "/view/6161", Some("qw_session=0123"), ""),
        "ABCD-EFGH",
        key,
    ) {
        Step::View(asked) => assert_eq!(asked, "6161"),
        step => panic!("{step:?}"),
    }
}

#[test]
fn sessions_are_recognised_by_their_cookie() {
    let headers = |name: &str, value: &str| vec![(name.to_string(), value.to_string())];
    assert!(authenticated(&headers("cookie", " a=1 ; qw_session=abc "), "abc"));
    assert!(authenticated(&headers("COOKIE", "qw_session=abc"), "abc"));
    assert!(!authenticated(&headers("Cookie", "qw_session=abcd"), "abc"));
    assert!(!authenticated(&headers("Cook", "qw_session=abc"), "abc"));
    assert!(!authenticated(&Vec::new(), "abc"));
}

#[test]
fn forms_and_percents_are_decoded() {
    assert_eq!(form_value("a=1&code=x%20y&code=z", "code").as_deref(), Some("x y"));
    assert_eq!(form_value("code", "code"), None);
    assert_eq!(form_value("", "code"), None);
    assert_eq!(percent_decode("%e2%82%ac"), "€");
    assert_eq!(percent_decode("100%"), "100%");
    assert_eq!(percent_decode("%zz%41"), "%zzA");
    assert_eq!(percent_decode("%ff!"), "\u{fffd}!");
    assert_eq!(percent_decode_bytes("%00+é"), vec![0, 32, 0xc3, 0xa9]);
}

#[test]
fn answers_carry_their_headers() {
    let html = respond_html(200, "<p>");
    assert_eq!(html.status, 200);
    assert_eq!(html.body, b"<p>");
    assert_eq!(header(&html, "Content-Type"), Some("text/html; charset=utf-8"));
    assert_eq!(header(&html, "Cache-Control"), Some("no-store"));
    assert_eq!(
        header(&html, "Content-Security-Policy"),
        Some("default-src 'self'; style-src 'unsafe-inline'; form-action 'self'; frame-ancestors 'none'")
    );
    let text = respond_text(404, "gone");
    assert_eq!(text.status, 404);
    assert_eq!(header(&text, "Content-Type"), Some("text/plain; charset=utf-8"));
    assert_eq!(header(&text, "Content-Security-Policy"), None);
    let file = respond_download(vec![1, 2], "Notes/naïve \"one\".md");
    assert_eq!(
        header(&file, "Content-Disposition"),
        Some("attachment; filename=\"na_ve _one_.md\"")
    );
    assert_eq!(respond_view("a", None).status, 404);
    assert_eq!(respond_file("a", None).status, 404);
    let seen = respond_view("Notes/a.md", Some("<b>"));
    assert_eq!(seen.status, 200);
    assert!(text_of(&seen).contains("<pre>&lt;b&gt;</pre>"));
}

#[test]
fn pages_hold_escaped_titles_and_links() {
    let page = note_page("a'<b>.md", "x & y");
    assert!(page.contains("<title>a&#39;&lt;b&gt;.md</title>"));
    assert!(page.contains("<pre>x &amp; y</pre>"));
    assert!(page.contains(&format!("href=\"/download/{}\"", hex_encode(b"a'<b>.md"))));
    assert!(index_page(&Vec::new()).contains("NO ORDINARY MARKDOWN NOTES FOUND."));
    let many: Vec<SafeNote> = (0..123)
        .map(|k| SafeNote { canonical: place("/x"), label: format!("n{k}.md") })
        .collect();
    assert!(index_page(&many).contains("<strong>123 FILES</strong>"));
    assert!(login_page(true).contains("ACCESS DENIED — CHECK THE CODE."));
    assert!(!login_page(false).contains("ACCESS DENIED"));
}

#[test]
fn addresses_are_shown_safely() {
    assert_eq!(safe_hostname(" Desk.local.local \n"), "Desk");
    assert_eq!(safe_hostname("my_desk.home"), "mydeskhome");
    assert_eq!(safe_hostname("…"), "quietwrite");
    assert_eq!(device_hostname(Some("one"), Some(&b"two".to_vec())), "one");
    assert_eq!(device_hostname(Some("  "), Some(&b" two\n".to_vec())), "two");
    assert_eq!(device_hostname(None, None), "quietwrite");
    assert_eq!(share_urls("desk", None), "http://desk.local:8787");
    assert_eq!(
        share_urls("desk", Some("10.0.0.7")),
        "http://desk.local:8787  or  http://10.0.0.7:8787"
    );
}

#[test]
fn sharing_starts_once_and_stops() {
    let mut share = WebShare::new();
    assert_eq!(share.snapshot(), ShareState::default());
    assert_eq!(share.snapshot().message, "Wi-Fi sharing is off");
    let session = share.start("http://desk.local:8787").unwrap();
    assert!(share.snapshot().starting);
    assert_eq!(share.snapshot().code, session.code);
    assert_eq!(share.snapshot().url, "http://desk.local:8787");
    assert_eq!(share.snapshot().message, "Starting read-only Wi-Fi library…");
    assert!(share.start("again").is_none());
    share.serving();
    assert!(share.snapshot().running && !share.snapshot().starting);
    assert_eq!(
        share.snapshot().message,
        "Read-only library is available on the local network"
    );
    share.stop();
    assert!(share.stop);
    assert_eq!(share.snapshot().code, "");
    assert_eq!(share.snapshot().message, "Wi-Fi sharing stopped");
    share.ended(session.generation, None);
    assert_eq!(share.snapshot().message, "Wi-Fi sharing stopped");
    let second = share.start("url").unwrap();
    assert!(!share.stop);
    assert_ne!(second.generation, session.generation);
    share.ended(second.generation, Some("port in use"));
    assert_eq!(share.snapshot().message, "Could not start Wi-Fi sharing: port in use");
    assert!(!share.snapshot().running);
    let third = share.start("url").unwrap();
    share.ended(third.generation, None);
    assert_eq!(share.snapshot().message, "Wi-Fi sharing ended");
    assert_eq!(share.snapshot().code, "");
}

#[test]
fn linked_folders_share_nothing_that_is_kept_back() {
    let directory = place("/desk");
    let files = vec![
        candidate("/desk/Drafts/old.md", Some("/desk/.quietwrite/history/old.md")),
        candidate("/desk/Ideas/gone.md", Some("/desk/.quietwrite/Trash/gone.md")),
        candidate("/desk/Journal/past.md", Some("/desk/Archive/past.md")),
        candidate("/desk/Projects/Book/book.md", Some("/desk/Exports/Book/book.md")),
        candidate("/desk/Notes/private.md", Some("/desk/Secret Thoughts/private.md")),
        candidate("/desk/Notes/linked.md", Some("/desk/Drafts/linked.md")),
        candidate("/desk/Notes/archived.md", Some("/desk/Archived/archived.md")),
    ];
    let notes = safe_notes(&directory, Some(&directory), &files);
    let labels: Vec<&str> = notes.iter().map(|note| note.label.as_str()).collect();
    assert_eq!(labels, vec!["Notes/archived.md", "Notes/linked.md"]);
    assert_eq!(notes[1].canonical.show(), "/desk/Drafts/linked.md");
}

#[test]
fn a_session_ends_with_the_next_stop_or_start() {
    let mut share = WebShare::new();
    let first = share.start("url").unwrap();
    assert!(share.goes_on(first.generation));
    share.stop();
    assert!(!share.goes_on(first.generation));
    let second = share.start("url").unwrap();
    assert!(!share.goes_on(first.generation));
    assert!(share.goes_on(second.generation));
    share.ended(second.generation, None);
    let third = share.start("url").unwrap();
    assert!(!share.goes_on(second.generation));
    assert!(share.goes_on(third.generation));
    share.stop();
    assert!((0..9).all(|generation| !share.goes_on(generation)));
}

#[test]
fn an_earlier_code_and_key_grant_nothing() {
    let mut share = WebShare::new();
    let first = share.start("url").unwrap();
    let cookie = format!("qw_session={}", first.session_key);
    let login = request(Method::Post, "/login", None, &format!("code={}", first.code));
    let reading = request(Method::Get, "/", Some(&cookie), "");
    assert_eq!(answer(handle_in_session(&share, &first, &login)).status, 303);
    assert!(matches!(handle_in_session(&share, &first, &reading), Step::Index));
    share.stop();
    let second = share.start("url").unwrap();
    assert_ne!(first.code, second.code);
    assert_ne!(first.session_key, second.session_key);
    for session in [&first, &second] {
        assert_eq!(answer(handle_in_session(&share, session, &login)).status, 403);
        assert_eq!(answer(handle_in_session(&share, session, &reading)).status, 401);
    }
    let cookie = format!("qw_session={}", second.session_key);
    let reading = request(Method::Get, "/", Some(&cookie), "");
    assert!(matches!(handle_in_session(&share, &second, &reading), Step::Index));
    assert_eq!(answer(handle_in_session(&share, &first, &reading)).status, 401);
}

#[test]
fn failed_draws_say_why_nothing_starts() {
    let code = || Ok("ABCD-2345".to_string());
    let mut share = WebShare::new();
    assert!(share.start_with_draws("url", Err("no source".into()), Err("either".into())).is_none());
    assert_eq!(share.snapshot().message, "Could not create a secure access code: no source");
    assert!(!share.snapshot().starting && !share.snapshot().running);
    assert_eq!(share.generation, 1);
    assert!(share.start_with_draws("url", code(), Err("no source".into())).is_none());
    assert_eq!(share.snapshot().message, "Could not create a secure browser session: no source");
    assert_eq!(share.snapshot().code, "");
    assert_eq!(share.generation, 2);
    let session = share.start_with_draws("url", code(), Ok("key".into())).unwrap();
    assert_eq!((session.code.as_str(), session.session_key.as_str()), ("ABCD-2345", "key"));
    assert_eq!(session.generation, 3);
    assert_eq!(share.snapshot().code, "ABCD-2345");
    assert!(share.start_with_draws("other", code(), Ok("other".into())).is_none());
    assert_eq!(share.snapshot().url, "url");
    assert_eq!(share.generation, 3);
}

#[test]
fn a_login_counts_whatever_the_case_and_never_without_a_code() {
    let login = |body: &str| {
        let asked = request(Method::Post, "/login", None, body);
        answer(handle_request(&asked, "ABCD-2345", "key")).status
    };
    assert_eq!(login("code=ABCD-2345"), 303);
    assert_eq!(login("code=abcd-2345"), 303);
    assert_eq!(login("code=%61bcd%2D2345"), 303);
    assert_eq!(login("code=abcd-2346"), 403);
    assert_eq!(login("code="), 403);
    assert_eq!(login("other=ABCD-2345"), 403);
    assert_eq!(login(""), 403);
}
