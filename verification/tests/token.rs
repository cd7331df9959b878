use vibrev::token::{
    after_create, after_read, constant_time_eq, default_path, fresh_file, generate,
    generate_distinct, parse, path_in, permission_warnings, render, resolve_dir, Accepted,
    CreateOutcome, LoadStep, Loaded, Origin, ReadOutcome, TokenError, Warning, CREATE_RETRIES,
    DIR_NAME, FILE_NAME, PREFIX,
};

fn accepted(tokens: &[&str]) -> Accepted {
    Accepted::new(tokens.iter().map(|t| (*t).to_owned()).collect(), None)
        .expect("non-empty token set")
}

/// A place where one file may be.
#[derive(Default)]
struct Place {
    file: Option<(String, u32)>,
}

const PATH: &[u8] = b"/home/tester/.vibrev/token";

impl Place {
    fn holding(contents: &str) -> Self {
        Place {
            file: Some((contents.to_owned(), 0o600)),
        }
    }

    fn read(&self) -> ReadOutcome {
        match &self.file {
            Some((contents, mode)) => ReadOutcome::Contents {
                contents: contents.clone(),
                mode: Some(*mode),
            },
            None => ReadOutcome::Missing,
        }
    }

    fn create(&mut self, contents: String) -> CreateOutcome {
        if self.file.is_some() {
            return CreateOutcome::Exists {
                reason: "File exists".to_owned(),
            };
        }
        self.file = Some((contents, 0o600));
        CreateOutcome::Created
    }

    fn write(&mut self, tokens: &[String]) {
        let existing = self.file.as_ref().map(|(contents, _)| contents.clone());
        self.file = Some((render(existing.as_deref(), tokens), 0o600));
    }

    fn contents(&self) -> &str {
        &self.file.as_ref().expect("a file").0
    }
}

fn load_or_create(place: &mut Place) -> Result<Loaded, TokenError> {
    let mut attempt = 0;
    let mut step = LoadStep::Read;
    loop {
        step = match step {
            LoadStep::Read => after_read(PATH, place.read()),
            LoadStep::Create => {
                assert!(attempt < CREATE_RETRIES);
                let token = generate();
                let outcome = place.create(fresh_file(&token));
                let next = after_create(PATH, token, attempt, outcome);
                attempt += 1;
                next
            }
            LoadStep::Done(outcome) => return outcome,
        };
    }
}

/// Whatever the parser hands back, the listener takes.
#[test]
fn every_line_the_parser_returns_is_a_line_the_listener_accepts() {
    let file = format!(
        "# a comment\n\n  {PREFIX}current  \n{PREFIX}previous\n# trailing\n\n{PREFIX}older\n"
    );
    let tokens = parse(&file);
    assert_eq!(
        tokens,
        [
            format!("{PREFIX}current"),
            format!("{PREFIX}previous"),
            format!("{PREFIX}older"),
        ]
    );

    let accepted = Accepted::new(tokens.clone(), None).expect("non-empty");
    for token in &tokens {
        assert!(accepted.accepts(token), "{token} was written but not taken");
    }
    assert_eq!(accepted.primary(), format!("{PREFIX}current"));
    assert!(!accepted.accepts("# a comment"));
    assert!(!accepted.accepts(""));
}

#[test]
fn a_generated_file_is_owner_only_and_reused() {
    let mut place = Place::default();

    let first = load_or_create(&mut place).expect("generate");
    assert_eq!(first.origin, Origin::Generated);
    assert_eq!(first.tokens.len(), 1);
    assert!(first.tokens[0].starts_with(PREFIX));
    assert!(first.warnings.is_empty());

    // A restart must not invalidate every installed client config.
    let second = load_or_create(&mut place).expect("reuse");
    assert_eq!(second.origin, Origin::Existing);
    assert_eq!(second.tokens, first.tokens);
}

#[test]
fn an_existing_file_is_never_overwritten_by_generation() {
    let mut place = Place::holding("vbr_preexisting\n");
    let loaded = load_or_create(&mut place).expect("read");
    assert_eq!(loaded.origin, Origin::Existing);
    assert_eq!(loaded.tokens, ["vbr_preexisting"]);
    assert_eq!(place.contents(), "vbr_preexisting\n");
}

#[test]
fn an_empty_token_file_is_an_error_not_an_open_door() {
    let mut place = Place::holding("# only a comment\n\n");
    assert!(matches!(
        load_or_create(&mut place),
        Err(TokenError::Empty { .. })
    ));
}

#[test]
fn a_group_readable_token_file_is_reported() {
    let mut place = Place::holding("vbr_loose\n");
    place.file = Some(("vbr_loose\n".to_owned(), 0o100644));
    let loaded = load_or_create(&mut place).expect("read");
    assert_eq!(
        loaded.warnings,
        [Warning::WorldReadable {
            path: PATH.to_vec(),
            mode: 0o644
        }]
    );
    assert!(
        loaded.warnings[0]
            .message()
            .contains("other users on this host can read it")
    );
    assert_eq!(
        loaded.warnings[0].message(),
        "token file /home/tester/.vibrev/token is mode 0644; other users on this host can read it. Fix with: chmod 600 /home/tester/.vibrev/token"
    );
    assert!(permission_warnings(PATH, Some(0o600)).is_empty());
    assert!(permission_warnings(PATH, None).is_empty());
}

#[test]
fn a_rewrite_keeps_the_comments_and_the_mode() {
    let mut place = Place::default();
    place.write(&["vbr_first".to_owned()]);
    let annotated = format!("# a note the operator added\n{}", place.contents());
    place.file = Some((annotated, 0o600));

    place.write(&["vbr_second".to_owned(), "vbr_first".to_owned()]);

    let contents = place.contents();
    assert!(
        contents.contains("# a note the operator added"),
        "{contents}"
    );
    assert_eq!(parse(contents), ["vbr_second", "vbr_first"]);
}

#[test]
fn a_rewrite_of_a_file_that_is_not_there_yet_writes_the_header() {
    let mut place = Place::default();
    place.write(&["vbr_only".to_owned()]);
    let contents = place.contents();
    assert!(
        contents.starts_with("# vibrev shared HTTP bearer token"),
        "{contents}"
    );
    assert_eq!(parse(contents), ["vbr_only"]);
}

/// The two ways a token file comes into existence must produce the same header.
#[test]
fn creation_and_rewrite_write_the_same_preamble() {
    let mut by_engine = Place::default();
    let mut by_installer = Place::default();
    let loaded = load_or_create(&mut by_engine).expect("generate");
    by_installer.write(&loaded.tokens);
    assert_eq!(by_engine.contents(), by_installer.contents());
}

#[test]
fn the_override_wins_and_an_empty_one_does_not() {
    let home: &[u8] = b"/home/tester";
    let under_home = format!("/home/tester/{DIR_NAME}").into_bytes();
    assert_eq!(
        resolve_dir(Some(b"/srv/vibrev"), Some(home)),
        Some(b"/srv/vibrev".to_vec())
    );
    assert_eq!(
        resolve_dir(None, Some(home)),
        Some(under_home.clone()),
        "without the override it is ~/{DIR_NAME}"
    );
    // An exported-but-empty variable is a shell accident, not a location.
    assert_eq!(resolve_dir(Some(b""), Some(home)), Some(under_home));
    assert_eq!(resolve_dir(None, None), None);
}

#[test]
fn a_fresh_token_is_never_one_already_in_the_file() {
    let existing = vec![format!("{PREFIX}taken")];
    let token = generate_distinct(&existing);
    assert!(token.starts_with(PREFIX));
    assert!(!existing.contains(&token));
    assert_ne!(generate(), generate());
    let taken: Vec<String> = (0..8).map(|_| generate()).collect();
    let fresh = generate_distinct(&taken);
    assert!(!taken.contains(&fresh));
    assert_eq!(fresh.len(), PREFIX.len() + 64, "a fresh token is never longer");
}

#[test]
fn every_listed_token_is_accepted_so_a_rotation_can_be_half_done() {
    let accepted = accepted(&["vbr_new", "vbr_old"]);
    assert!(accepted.accepts("vbr_new"));
    assert!(accepted.accepts("vbr_old"));
    assert!(!accepted.accepts("vbr_other"));
    assert_eq!(accepted.primary(), "vbr_new");
    assert_eq!(accepted.count(), 2);
}

#[test]
fn an_empty_token_set_cannot_be_constructed() {
    assert!(matches!(
        Accepted::new(Vec::new(), None),
        Err(TokenError::Empty { .. })
    ));
}

#[test]
fn debug_never_prints_the_token() {
    let rendered = accepted(&["vbr_supersecret"]).debug_text();
    assert!(!rendered.contains("vbr_supersecret"), "{rendered}");
    assert!(rendered.contains('1'), "the count is still useful");
}

#[test]
fn constant_time_eq_still_decides_correctly() {
    assert!(constant_time_eq(b"abcd", b"abcd"));
    assert!(!constant_time_eq(b"abcd", b"abce"));
    // A prefix must not pass just because the loop indexes modulo.
    assert!(!constant_time_eq(b"abcd", b"ab"));
    assert!(!constant_time_eq(b"abcd", b"abcdabcd"));
    assert!(!constant_time_eq(b"abcd", b""));
    assert!(constant_time_eq(b"", b""));
}

#[test]
fn a_generated_token_is_the_prefix_and_two_identifiers() {
    let token = generate();
    let rest = token.strip_prefix(PREFIX).expect("the prefix");
    assert_eq!(rest.len(), 64);
    assert!(rest.chars().all(|c| c.is_ascii_digit() || ('a'..='f').contains(&c)));
}

#[test]
fn the_default_path_needs_a_directory() {
    assert_eq!(path_in(b"/srv"), format!("/srv/{FILE_NAME}").into_bytes());
    assert_eq!(
        default_path(None, Some(b"/root")),
        Ok(b"/root/.vibrev/token".to_vec())
    );
    assert_eq!(default_path(None, None), Err(TokenError::NoHome));
}

#[test]
fn every_error_says_where_and_why() {
    let path = b"/t".to_vec();
    assert_eq!(
        TokenError::Empty { path: path.clone() }.message(),
        "token file /t is empty; it must hold at least one token, one per line"
    );
    for error in [
        TokenError::Read { path: path.clone(), reason: "denied".to_owned() },
        TokenError::Create { path: path.clone(), reason: "denied".to_owned() },
        TokenError::CreateDir { path: path.clone(), reason: "denied".to_owned() },
        TokenError::Write { path, reason: "denied".to_owned() },
    ] {
        let message = error.message();
        assert!(message.contains("/t"), "{message}");
        assert!(message.contains("denied"), "{message}");
    }
    // A name that is no text is shown as far as it is one.
    let odd = TokenError::Empty { path: b"/a\xff".to_vec() }.message();
    assert!(odd.contains("/a\u{fffd}"), "{odd}");
}

#[test]
fn a_failed_read_and_a_lost_race_are_told_apart() {
    let failed = ReadOutcome::Failed { reason: "denied".to_owned() };
    assert!(matches!(
        after_read(PATH, failed),
        LoadStep::Done(Err(TokenError::Read { .. }))
    ));
    let lost = || CreateOutcome::Exists { reason: "File exists".to_owned() };
    assert!(matches!(
        after_create(PATH, "vbr_x".to_owned(), 0, lost()),
        LoadStep::Read
    ));
    assert!(matches!(
        after_create(PATH, "vbr_x".to_owned(), CREATE_RETRIES - 1, lost()),
        LoadStep::Done(Err(TokenError::Create { .. }))
    ));
}

#[test]
fn what_was_loaded_is_what_is_accepted() {
    let mut place = Place::holding("vbr_a\nvbr_b\n");
    let loaded = load_or_create(&mut place).expect("read");
    let (accepted, loaded) = Accepted::load(PATH, loaded).ok().expect("tokens");
    assert_eq!(accepted.count(), loaded.tokens.len());
    assert_eq!(accepted.source().map(|p| p.as_slice()), Some(PATH));
    assert!(accepted.accepts("vbr_b"));
}
