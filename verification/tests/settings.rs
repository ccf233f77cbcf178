use loop_bridge::dotenv::{embedded_assignment, load_dotenv, Dotenv, MergedLine, Setting};
use loop_bridge::json::{parse_json, Json};
use loop_bridge::startup::{
    check_provider, cors_policy, listen_port, resume_session_id, session_file,
    validate_provider_registered, CorsPolicy,
};
use loop_bridge::text::{decimal, trim};

fn setting(key: &str, value: &str) -> Setting {
    Setting { key: key.to_string(), value: value.to_string() }
}

fn read(contents: &str) -> Dotenv {
    load_dotenv(Some(contents), &Vec::new())
}

#[test]
fn embedded_assignment_finds_a_glued_setting() {
    assert_eq!(embedded_assignment("soketLOOP_SERVER_MODEL=x"), Some("LOOP_SERVER_MODEL"));
    assert_eq!(embedded_assignment("abc RAG_SERVICE_URL=http://x"), Some("RAG_SERVICE_URL"));
    assert_eq!(embedded_assignment("A_BC="), Some("A_BC"));
    assert_eq!(embedded_assignment("a=b A_BC=1 D_EF=2"), Some("A_BC"));
    assert_eq!(embedded_assignment("é LOOP_2=x"), Some("LOOP_2"));
}

#[test]
fn embedded_assignment_passes_ordinary_values() {
    assert_eq!(embedded_assignment("http://x/?a=b"), None);
    assert_eq!(embedded_assignment("abc=="), None);
    assert_eq!(embedded_assignment("ABCDEF=1"), None);
    assert_eq!(embedded_assignment("A_B=1"), None);
    assert_eq!(embedded_assignment("_ABC=1"), None);
    assert_eq!(embedded_assignment("1_ABC=1"), None);
    assert_eq!(embedded_assignment("LOOP_SERVER_MODEL"), None);
    assert_eq!(embedded_assignment(""), None);
}

#[test]
fn dotenv_reads_settings_in_order() {
    let d = read("# a comment\n\nA = 1 \r\nB='two words'\nC=\"x\"\nnonsense\nD=\"y'\nE=\"\nF=a=b\n");
    assert_eq!(
        d.settings,
        vec![
            setting("A", "1"),
            setting("B", "two words"),
            setting("C", "x"),
            setting("D", "\"y'"),
            setting("E", "\""),
            setting("F", "a=b"),
        ]
    );
    assert_eq!(d.merged, None);
}

#[test]
fn dotenv_never_overrides_what_is_set() {
    let set = vec!["FOO".to_string(), "OTHER".to_string()];
    let d = load_dotenv(Some("FOO=file\nBAR=first\nBAR=second"), &set);
    assert_eq!(d.settings, vec![setting("BAR", "first")]);
}

#[test]
fn dotenv_stops_at_the_first_merged_line() {
    let d = read("A=1\n\nKEY=xLOOP_SERVER_MODEL=y\nB=2\nC=zOTHER_NAME=1");
    assert_eq!(d.settings, vec![setting("A", "1")]);
    let merged = d.merged.unwrap();
    assert_eq!(
        merged,
        MergedLine {
            line: 3,
            key: "KEY".to_string(),
            embedded: "LOOP_SERVER_MODEL".to_string()
        }
    );
    assert_eq!(
        merged.message(),
        ".env line 3: the value of KEY contains another assignment \
         (LOOP_SERVER_MODEL=...), so several settings were merged onto one line \
         and none of them will be read correctly. This usually happens \
         when a block of config lines is pasted into a single-value \
         prompt or appended without line breaks. Put each KEY=VALUE on \
         its own line (see .env.example)."
    );
}

#[test]
fn dotenv_refuses_a_merged_line_for_a_set_variable_too() {
    let d = load_dotenv(Some("KEY=xA_BC=y"), &vec!["KEY".to_string()]);
    assert_eq!(d.settings, vec![]);
    assert_eq!(d.merged.unwrap().line, 1);
}

#[test]
fn dotenv_ignores_idle_lines() {
    let with = read("A=1\n  # note\nB=2");
    let without = read("A=1\nB=2");
    assert_eq!(with.settings, without.settings);
}

#[test]
fn dotenv_without_a_file_sets_nothing() {
    let d = load_dotenv(None, &Vec::new());
    assert_eq!(d, Dotenv { settings: vec![], merged: None });
    assert_eq!(read(""), Dotenv { settings: vec![], merged: None });
}

#[test]
fn trim_drops_unicode_white_space() {
    assert_eq!(trim("\u{3000}\t a b \u{a0}\n"), "a b");
    assert_eq!(trim(" \n"), "");
    assert_eq!(trim("\u{200b}x"), "\u{200b}x");
}

#[test]
fn decimal_writes_numbers() {
    assert_eq!(decimal(0), "0");
    assert_eq!(decimal(10), "10");
    assert_eq!(decimal(18446744073709551615), "18446744073709551615");
}

#[test]
fn builtin_providers_need_no_registration() {
    assert_eq!(validate_provider_registered(Some("soket"), None, None, "p"), Ok(()));
    assert_eq!(validate_provider_registered(Some("faux"), None, None, "p"), Ok(()));
    assert_eq!(validate_provider_registered(None, None, None, "p"), Ok(()));
    assert_eq!(validate_provider_registered(None, Some("not json"), None, "p"), Ok(()));
    assert_eq!(
        validate_provider_registered(None, Some("{\"defaultProvider\": 3}"), None, "p"),
        Ok(())
    );
}

#[test]
fn registered_providers_boot() {
    let models = "{\"providers\": [{\"name\": 1}, {\"id\": \"ollama\"}]}";
    assert_eq!(validate_provider_registered(Some("ollama"), None, Some(models), "p"), Ok(()));
    let settings = "{\"defaultProvider\": \"ollama\"}";
    assert_eq!(validate_provider_registered(None, Some(settings), Some(models), "p"), Ok(()));
    assert_eq!(
        validate_provider_registered(Some("soket"), Some(settings), None, "p"),
        Ok(())
    );
}

#[test]
fn unregistered_providers_are_refused_loudly() {
    let models = "{\"providers\": [{\"id\": \"other\"}]}";
    let message = validate_provider_registered(
        Some("tensor\"studio"),
        None,
        Some(models),
        "\"/home/u/models.json\"",
    )
    .unwrap_err();
    assert_eq!(
        message,
        "provider \"tensor\\\"studio\" is not registered in \"/home/u/models.json\" \
         (or that file doesn't exist). Without this check, the harness would \
         silently fall back to the built-in 'soket' provider instead of \
         failing here — you'd see 'harness ready \u{2014} provider soket' below \
         and every real message would fail with a confusing auth error \
         against a provider you never configured. Fix: either add an entry \
         for \"tensor\\\"studio\" to that file (see bridge/README.md \
         'Running against the real hosted model'), or unset \
         LOOP_SERVER_PROVIDER in .env to use 'soket' directly with \
         SOKET_API_KEY / TENSORSTUDIO_API_KEY / LOOP_API_KEY instead."
    );
    assert!(validate_provider_registered(Some("x"), None, None, "p").is_err());
    assert!(validate_provider_registered(Some("x"), None, Some("{\"providers\": {}}"), "p").is_err());
    assert!(validate_provider_registered(Some("x"), None, Some("[]"), "p").is_err());
}

#[test]
fn the_last_of_two_members_counts() {
    let settings = parse_json("{\"defaultProvider\": \"a\", \"defaultProvider\": \"soket\"}");
    assert_eq!(check_provider(None, settings, None, "p"), Ok(()));
    let built = Json::object()
        .with("defaultProvider", Json::text_of("a"))
        .with("defaultProvider", Json::text_of("faux"));
    assert_eq!(check_provider(None, Some(built), None, "p"), Ok(()));
}

#[test]
fn session_is_resumed_from_its_file() {
    assert_eq!(resume_session_id(Some(" abc-1\n")), Some("abc-1".to_string()));
    assert_eq!(resume_session_id(Some(" \n")), None);
    assert_eq!(resume_session_id(None), None);
    assert_eq!(session_file(None), ".loop-server-session-id");
    assert_eq!(session_file(Some("x")), "x");
}

#[test]
fn cors_defaults_to_the_development_server() {
    assert_eq!(
        cors_policy(None),
        Ok(CorsPolicy::Origins(vec![
            "http://localhost:5173".to_string(),
            "http://127.0.0.1:5173".to_string()
        ]))
    );
}

#[test]
fn cors_follows_the_setting() {
    assert_eq!(cors_policy(Some("*")), Ok(CorsPolicy::AnyOrigin));
    assert_eq!(
        cors_policy(Some("https://a.example")),
        Ok(CorsPolicy::Origins(vec!["https://a.example".to_string()]))
    );
    assert_eq!(
        cors_policy(Some("\ta\u{e9}")),
        Ok(CorsPolicy::Origins(vec!["\ta\u{e9}".to_string()]))
    );
}

#[test]
fn cors_refuses_what_no_header_can_hold() {
    assert_eq!(
        cors_policy(Some("a\nb")),
        Err("invalid LOOP_SERVER_CORS_ORIGIN \"a\\nb\": failed to parse header value".to_string())
    );
    assert!(cors_policy(Some("\u{7f}")).is_err());
}

#[test]
fn port_falls_back_to_the_default() {
    assert_eq!(listen_port(None), 8787);
    assert_eq!(listen_port(Some("9000")), 9000);
    assert_eq!(listen_port(Some("+0080")), 80);
    assert_eq!(listen_port(Some("65535")), 65535);
    assert_eq!(listen_port(Some("65536")), 8787);
    assert_eq!(listen_port(Some("99999999999999999999")), 8787);
    assert_eq!(listen_port(Some("")), 8787);
    assert_eq!(listen_port(Some("+")), 8787);
    assert_eq!(listen_port(Some(" 80")), 8787);
    assert_eq!(listen_port(Some("-1")), 8787);
}

#[test]
fn port_reading_agrees_with_std() {
    for text in ["0", "1", "+1", "++1", "08", "1_0", "x", "70000", "\u{0661}"] {
        assert_eq!(listen_port(Some(text)), text.parse().unwrap_or(8787));
    }
}
