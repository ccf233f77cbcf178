//! What is settled before the bridge listens: the provider, the session to go
//! on with, who may call from a browser, and the port.

use vstd::prelude::*;
use vstd::string::*;
use vstd::utf8::encode_utf8;

use crate::json::{parse_json, parsed_json, Json, JsonModel};
use crate::text::{chars_of, decimal_model, digit_model, join3, same_text, trim};
use crate::text::{is_space, law_trim_drops_the_padding, opt_text, texts_model, trim_model};

verus! {

/// A text in quotes, escaped as `Debug` escapes it.
pub uninterp spec fn debug_model(text: Seq<char>) -> Seq<char>;

/// `Debug` of a `str`: the text in quotes, with what cannot be shown escaped.
/// Which characters are escaped, and how, is left to the name.
#[verifier::external_body]
fn debug_text(text: &str) -> (r: String)
    ensures
        r@ == debug_model(text@),
{
    format!("{:?}", text)
}

/// A provider that needs no registration.
pub open spec fn is_builtin(provider: Seq<char>) -> bool {
    provider == "soket"@ || provider == "faux"@
}

/// The JSON that a file holds, if it could be read and is JSON.
pub open spec fn file_json(contents: Option<Seq<char>>) -> Option<JsonModel> {
    match contents {
        Some(text) => parsed_json(text),
        None => None,
    }
}

/// The provider in effect: the one configured, else the settings' default,
/// else `soket`.
pub open spec fn effective_provider(
    configured: Option<Seq<char>>,
    settings: Option<JsonModel>,
) -> Seq<char> {
    match configured {
        Some(p) => p,
        None => match settings {
            Some(j) => match j.text_member("defaultProvider"@) {
                Some(p) => p,
                None => "soket"@,
            },
            None => "soket"@,
        },
    }
}

/// Whether a list of models has an entry for the provider.
pub open spec fn is_registered(provider: Seq<char>, models: Option<JsonModel>) -> bool {
    match models {
        Some(j) => match j.member("providers"@) {
            Some(list) => match list.items() {
                Some(items) => exists|i: int|
                    0 <= i < items.len() && (#[trigger] items[i]).text_member("id"@) == Some(
                        provider,
                    ),
                None => false,
            },
            None => false,
        },
        None => false,
    }
}

/// What is said of a provider that is not registered in the file shown as
/// `path`.
pub open spec fn unregistered_message(provider: Seq<char>, path: Seq<char>) -> Seq<char> {
    "provider "@ + debug_model(provider) + " is not registered in "@ + path
        + " (or that file doesn't exist). Without this check, the harness would silently fall back to the built-in 'soket' provider instead of failing here — you'd see 'harness ready \u{2014} provider soket' below and every real message would fail with a confusing auth error against a provider you never configured. Fix: either add an entry for "@
        + debug_model(provider)
        + " to that file (see bridge/README.md 'Running against the real hosted model'), or unset LOOP_SERVER_PROVIDER in .env to use 'soket' directly with SOKET_API_KEY / TENSORSTUDIO_API_KEY / LOOP_API_KEY instead."@
}

/// What the settings and the list of models make of a provider.
pub open spec fn provider_model(
    configured: Option<Seq<char>>,
    settings: Option<JsonModel>,
    models: Option<JsonModel>,
    models_path: Seq<char>,
) -> Result<(), Seq<char>> {
    let provider = effective_provider(configured, settings);
    if is_builtin(provider) || is_registered(provider, models) {
        Ok(())
    } else {
        Err(unregistered_message(provider, models_path))
    }
}

/// What an optional JSON value is.
pub open spec fn opt_json(j: Option<Json>) -> Option<JsonModel> {
    match j {
        Some(v) => Some(v@),
        None => None,
    }
}

fn lists_provider(models: &Json, provider: &str) -> (r: bool)
    ensures
        r == is_registered(provider@, Some(models@)),
{
    let list = match models.get("providers") {
        Some(list) => list,
        None => {
            return false;
        },
    };
    let items = match list.as_array() {
        Some(items) => items,
        None => {
            return false;
        },
    };
    let ghost all = list@.items()->0;
    let mut i: usize = 0;
    while i < items.len()
        invariant
            i <= items@.len(),
            models@.member("providers"@) == Some(list@),
            list@.items() == Some(all),
            all.len() == items@.len(),
            forall|j: int| 0 <= j < items@.len() ==> all[j] == (#[trigger] items@[j])@,
            forall|j: int| 0 <= j < i ==> (#[trigger] all[j]).text_member("id"@) != Some(provider@),
        decreases items.len() - i,
    {
        proof {
            assert(all[i as int] == items@[i as int]@);
        }
        if let Some(id) = items[i].text_member("id") {
            if same_text(id, provider) {
                return true;
            }
        }
        i = i + 1;
    }
    false
}

/// Whether the bridge may boot with its provider, given what the settings and
/// the list of models say.
pub fn check_provider(
    configured: Option<&str>,
    settings: Option<Json>,
    models: Option<Json>,
    models_path: &str,
) -> (r: Result<(), String>)
    ensures
        (match r {
            Ok(()) => Ok(()),
            Err(e) => Err(e@),
        }) == provider_model(
            opt_text(configured),
            opt_json(settings),
            opt_json(models),
            models_path@,
        ),
{
    let provider: String = match configured {
        Some(p) => p.to_owned(),
        None => match &settings {
            Some(j) => match j.text_member("defaultProvider") {
                Some(p) => p.to_owned(),
                None => "soket".to_owned(),
            },
            None => "soket".to_owned(),
        },
    };
    if same_text(provider.as_str(), "soket") || same_text(provider.as_str(), "faux") {
        return Ok(());
    }
    let registered = match &models {
        Some(j) => lists_provider(j, provider.as_str()),
        None => false,
    };
    if registered {
        return Ok(());
    }
    let shown = debug_text(provider.as_str());
    let mut m = join3("provider ", shown.as_str(), " is not registered in ");
    m.append(models_path);
    m.append(
        " (or that file doesn't exist). Without this check, the harness would silently fall back to the built-in 'soket' provider instead of failing here — you'd see 'harness ready \u{2014} provider soket' below and every real message would fail with a confusing auth error against a provider you never configured. Fix: either add an entry for ",
    );
    m.append(shown.as_str());
    m.append(
        " to that file (see bridge/README.md 'Running against the real hosted model'), or unset LOOP_SERVER_PROVIDER in .env to use 'soket' directly with SOKET_API_KEY / TENSORSTUDIO_API_KEY / LOOP_API_KEY instead.",
    );
    Err(m)
}

fn read_json(contents: Option<&str>) -> (r: Option<Json>)
    ensures
        opt_json(r) == file_json(opt_text(contents)),
{
    match contents {
        Some(text) => parse_json(text),
        None => None,
    }
}

/// Refuses to boot with a provider that nobody registered, which the agent
/// would quietly replace by `soket`. `settings` and `models` are the contents
/// of the two files, where they could be read; `models_path` is how the second
/// is shown.
pub fn validate_provider_registered(
    configured: Option<&str>,
    settings: Option<&str>,
    models: Option<&str>,
    models_path: &str,
) -> (r: Result<(), String>)
    ensures
        (match r {
            Ok(()) => Ok(()),
            Err(e) => Err(e@),
        }) == provider_model(
            opt_text(configured),
            file_json(opt_text(settings)),
            file_json(opt_text(models)),
            models_path@,
        ),
{
    check_provider(configured, read_json(settings), read_json(models), models_path)
}

/// Where the id of the session is kept.
pub open spec fn session_file_model(configured: Option<Seq<char>>) -> Seq<char> {
    match configured {
        Some(path) => path,
        None => ".loop-server-session-id"@,
    }
}

/// Where the id of the session is kept.
pub fn session_file(configured: Option<&str>) -> (r: String)
    ensures
        r@ == session_file_model(opt_text(configured)),
{
    match configured {
        Some(path) => path.to_owned(),
        None => ".loop-server-session-id".to_owned(),
    }
}

/// The session to go on with, given the contents of the file that its id is
/// kept in, if there is one: nothing where the file holds no id.
pub open spec fn resumed_model(contents: Option<Seq<char>>) -> Option<Seq<char>> {
    match contents {
        Some(text) => if trim_model(text).len() == 0 {
            None
        } else {
            Some(trim_model(text))
        },
        None => None,
    }
}

/// The session to go on with, given the contents of the file that its id is
/// kept in, if there is one.
pub fn resume_session_id(contents: Option<&str>) -> (r: Option<String>)
    ensures
        match r {
            Some(id) => resumed_model(opt_text(contents)) == Some(id@),
            None => resumed_model(opt_text(contents)) is None,
        },
{
    match contents {
        Some(text) => {
            let id = trim(text);
            if id.as_str().is_empty() {
                None
            } else {
                Some(id)
            }
        },
        None => None,
    }
}

/// Which pages may call the bridge.
#[derive(Debug, PartialEq, Eq)]
pub enum CorsPolicy {
    /// Pages from anywhere.
    AnyOrigin,
    /// Pages from these origins.
    Origins(Vec<String>),
}

pub enum CorsModel {
    AnyOrigin,
    Origins(Seq<Seq<char>>),
}

impl View for CorsPolicy {
    type V = CorsModel;

    open spec fn view(&self) -> CorsModel {
        match self {
            CorsPolicy::AnyOrigin => CorsModel::AnyOrigin,
            CorsPolicy::Origins(list) => CorsModel::Origins(texts_model(list@)),
        }
    }
}

/// A byte that may stand in the value of a header.
pub open spec fn is_header_byte(b: u8) -> bool {
    (b >= 32 && b != 127) || b == 9
}

/// Bytes that may stand as the value of a header.
pub open spec fn is_header_value(bytes: Seq<u8>) -> bool {
    forall|i: int| 0 <= i < bytes.len() ==> is_header_byte(#[trigger] bytes[i])
}

/// `axum::http::HeaderValue::from_str`: why the text is refused as the value
/// of a header, if it is. It is refused for a byte below 32 other than a tab,
/// and for byte 127; the reason is always put in the same words.
#[verifier::external_body]
fn header_refusal(text: &str) -> (r: Option<String>)
    ensures
        match r {
            None => is_header_value(encode_utf8(text@)),
            Some(e) => !is_header_value(encode_utf8(text@)) && e@
                == "failed to parse header value"@,
        },
{
    axum::http::HeaderValue::from_str(text).err().map(|e| e.to_string())
}

/// Which pages may call the bridge, or why the setting is refused.
pub open spec fn cors_model(configured: Option<Seq<char>>) -> Result<CorsModel, Seq<char>> {
    match configured {
        None => Ok(
            CorsModel::Origins(seq!["http://localhost:5173"@, "http://127.0.0.1:5173"@]),
        ),
        Some(origin) => if origin == "*"@ {
            Ok(CorsModel::AnyOrigin)
        } else if is_header_value(encode_utf8(origin)) {
            Ok(CorsModel::Origins(seq![origin]))
        } else {
            Err(
                "invalid LOOP_SERVER_CORS_ORIGIN "@ + debug_model(origin) + ": "@
                    + "failed to parse header value"@,
            )
        },
    }
}

/// Which pages may call the bridge: by default those of the front end's own
/// development server, under either name of this machine; `*` stands for any.
pub fn cors_policy(configured: Option<&str>) -> (r: Result<CorsPolicy, String>)
    ensures
        (match r {
            Ok(p) => Ok(p@),
            Err(e) => Err(e@),
        }) == cors_model(opt_text(configured)),
{
    let mut list: Vec<String> = Vec::new();
    match configured {
        None => {
            list.push("http://localhost:5173".to_owned());
            list.push("http://127.0.0.1:5173".to_owned());
            proof {
                assert(texts_model(list@) =~= seq![
                    "http://localhost:5173"@,
                    "http://127.0.0.1:5173"@,
                ]);
            }
            Ok(CorsPolicy::Origins(list))
        },
        Some(origin) => {
            if same_text(origin, "*") {
                return Ok(CorsPolicy::AnyOrigin);
            }
            match header_refusal(origin) {
                None => {
                    list.push(origin.to_owned());
                    proof {
                        assert(texts_model(list@) =~= seq![origin@]);
                    }
                    Ok(CorsPolicy::Origins(list))
                },
                Some(e) => {
                    let mut m = join3(
                        "invalid LOOP_SERVER_CORS_ORIGIN ",
                        debug_text(origin).as_str(),
                        ": ",
                    );
                    m.append(e.as_str());
                    Err(m)
                },
            }
        },
    }
}

/// A decimal digit.
pub open spec fn is_digit(c: char) -> bool {
    '0' <= c <= '9'
}

/// The number that a row of digits stands for.
pub open spec fn digits_value(digits: Seq<char>) -> int
    decreases digits.len(),
{
    if digits.len() == 0 {
        0
    } else {
        10 * digits_value(digits.drop_last()) + (digits.last() as int - 48)
    }
}

/// A text without a plus sign at its start.
pub open spec fn without_plus(text: Seq<char>) -> Seq<char> {
    if text.len() > 0 && text[0] == '+' {
        text.skip(1)
    } else {
        text
    }
}

/// The number that a text stands for, if it is made of digits, with a plus
/// sign or none, and fits in sixteen bits.
pub open spec fn port_number(text: Seq<char>) -> Option<u16> {
    let digits = without_plus(text);
    if digits.len() > 0 && (forall|i: int| 0 <= i < digits.len() ==> is_digit(#[trigger] digits[i]))
        && digits_value(digits) <= u16::MAX {
        Some(digits_value(digits) as u16)
    } else {
        None
    }
}

/// The port that the bridge listens on where none is configured.
pub const DEFAULT_PORT: u16 = 8787;

/// The port to listen on.
pub open spec fn port_model(configured: Option<Seq<char>>) -> u16 {
    match configured {
        Some(text) => match port_number(text) {
            Some(n) => n,
            None => DEFAULT_PORT,
        },
        None => DEFAULT_PORT,
    }
}

proof fn lemma_digits_grow(digits: Seq<char>, n: int)
    requires
        0 <= n <= digits.len(),
        forall|i: int| 0 <= i < digits.len() ==> is_digit(#[trigger] digits[i]),
    ensures
        0 <= digits_value(digits.take(n)) <= digits_value(digits),
    decreases digits.len(),
{
    if n == digits.len() {
        assert(digits.take(n) =~= digits);
        if n > 0 {
            let front = digits.drop_last();
            assert forall|i: int| 0 <= i < front.len() implies is_digit(#[trigger] front[i]) by {
                assert(front[i] == digits[i]);
            }
            lemma_digits_grow(front, n - 1);
            assert(front.take(n - 1) =~= front);
            assert(is_digit(digits[n - 1]));
        }
    } else {
        let front = digits.drop_last();
        assert forall|i: int| 0 <= i < front.len() implies is_digit(#[trigger] front[i]) by {
            assert(front[i] == digits[i]);
        }
        lemma_digits_grow(front, n);
        assert(front.take(n) =~= digits.take(n));
        assert(is_digit(digits[digits.len() - 1]));
    }
}

fn read_port(text: &str) -> (r: Option<u16>)
    ensures
        r == port_number(text@),
{
    let chars = chars_of(text);
    let from: usize = if chars.len() > 0 && chars[0] == '+' {
        1
    } else {
        0
    };
    let ghost digits = without_plus(text@);
    proof {
        assert(digits =~= chars@.skip(from as int));
        assert(digits.take(0) =~= Seq::empty());
    }
    if from == chars.len() {
        return None;
    }
    let mut value: u32 = 0;
    let mut i: usize = from;
    while i < chars.len()
        invariant
            from <= i <= chars@.len(),
            from <= 1,
            digits == chars@.skip(from as int),
            digits == without_plus(text@),
            digits.len() == chars@.len() - from,
            value <= u16::MAX,
            value == digits_value(digits.take(i - from)),
            forall|j: int| 0 <= j < i - from ==> is_digit(#[trigger] digits[j]),
        decreases chars.len() - i,
    {
        let c: char = chars[i];
        let ghost at = i - from;
        proof {
            assert(digits[at] == c);
            assert(digits.take(at + 1).drop_last() =~= digits.take(at));
            assert(digits.take(at + 1).last() == c);
        }
        if c < '0' || '9' < c {
            proof {
                assert(!is_digit(digits[at]));
            }
            return None;
        }
        value = 10 * value + (c as u32 - 48);
        if value > 65535 {
            proof {
                if forall|j: int| 0 <= j < digits.len() ==> is_digit(#[trigger] digits[j]) {
                    lemma_digits_grow(digits, at + 1);
                }
            }
            return None;
        }
        i = i + 1;
    }
    proof {
        assert(digits.take(i - from) =~= digits);
    }
    Some(value as u16)
}

/// The port to listen on: the one configured, if it is a port.
pub fn listen_port(configured: Option<&str>) -> (r: u16)
    ensures
        r == port_model(opt_text(configured)),
{
    match configured {
        Some(text) => match read_port(text) {
            Some(n) => n,
            None => DEFAULT_PORT,
        },
        None => DEFAULT_PORT,
    }
}

proof fn lemma_decimal_digits(n: nat)
    ensures
        decimal_model(n).len() > 0,
        forall|i: int| 0 <= i < decimal_model(n).len() ==> is_digit(#[trigger] decimal_model(n)[i]),
        digits_value(decimal_model(n)) == n,
    decreases n,
{
    let s = decimal_model(n);
    if n < 10 {
        assert(s.drop_last() =~= Seq::empty());
        assert(s.last() == digit_model(n));
        reveal_with_fuel(digits_value, 2);
    } else {
        lemma_decimal_digits(n / 10);
        assert(s.drop_last() =~= decimal_model(n / 10));
        assert(s.last() == digit_model(n % 10));
        assert forall|i: int| 0 <= i < s.len() implies is_digit(#[trigger] s[i]) by {
            if i < s.len() - 1 {
                assert(s[i] == decimal_model(n / 10)[i]);
            }
        }
    }
}

/// Every port can be configured: written in decimal, it is the port that the
/// bridge listens on.
pub proof fn law_every_port_can_be_configured(port: u16)
    ensures
        port_model(Some(decimal_model(port as nat))) == port,
{
    lemma_decimal_digits(port as nat);
    let s = decimal_model(port as nat);
    assert(is_digit(s[0]));
    assert(without_plus(s) == s);
}

/// The provider that was asked for is the one in effect, whatever the settings
/// say.
pub proof fn law_configured_provider_wins(provider: Seq<char>, settings: Option<JsonModel>)
    ensures
        effective_provider(Some(provider), settings) == provider,
{
}

/// The bridge never boots with a provider that is neither built in nor
/// registered, and always with one that is.
pub proof fn law_only_known_providers_boot(
    configured: Option<Seq<char>>,
    settings: Option<JsonModel>,
    models: Option<JsonModel>,
    models_path: Seq<char>,
)
    ensures
        provider_model(configured, settings, models, models_path) is Ok <==> {
            ||| is_builtin(effective_provider(configured, settings))
            ||| is_registered(effective_provider(configured, settings), models)
        },
        models is None && provider_model(configured, settings, models, models_path) is Ok
            ==> is_builtin(effective_provider(configured, settings)),
{
}

/// An id that was kept is the session to go on with, whatever white space
/// stands around it; a file of white space alone starts a new session.
pub proof fn law_kept_session_is_resumed(before: Seq<char>, id: Seq<char>, after: Seq<char>)
    requires
        forall|i: int| 0 <= i < before.len() ==> is_space(#[trigger] before[i]),
        forall|i: int| 0 <= i < after.len() ==> is_space(#[trigger] after[i]),
        id.len() > 0 ==> !is_space(id[0]) && !is_space(id.last()),
    ensures
        resumed_model(Some(before + id + after)) == if id.len() > 0 {
            Some(id)
        } else {
            None
        },
{
    law_trim_drops_the_padding(before, id, after);
}

/// The session's id is kept where it is configured to be kept.
pub proof fn law_the_session_is_kept_where_configured(path: Seq<char>)
    ensures
        session_file_model(Some(path)) == path,
        session_file_model(None) == ".loop-server-session-id"@,
        resumed_model(None) is None,
{
}

/// A provider is registered by an entry with its id anywhere in the list of
/// providers, first, last or between: the bridge then boots with it.
pub proof fn law_a_registered_provider_boots(
    provider: Seq<char>,
    settings: Option<JsonModel>,
    models: JsonModel,
    items: Seq<JsonModel>,
    i: int,
    models_path: Seq<char>,
)
    requires
        models.member("providers"@) == Some(JsonModel::Array(items)),
        0 <= i < items.len(),
        items[i].member("id"@) == Some(JsonModel::Text(provider)),
    ensures
        provider_model(Some(provider), settings, Some(models), models_path) == Ok::<
            (),
            Seq<char>,
        >(()),
{
    assert(items[i].text_member("id"@) == Some(provider));
}

/// The two providers that are built in boot without any file.
pub proof fn law_built_in_providers_boot(
    settings: Option<JsonModel>,
    models: Option<JsonModel>,
    models_path: Seq<char>,
)
    ensures
        provider_model(Some("soket"@), settings, models, models_path) is Ok,
        provider_model(Some("faux"@), settings, models, models_path) is Ok,
{
}

/// Where the bridge boots with a provider that is not one of the two built in,
/// some entry of the list of providers has its id; where no entry has it, the
/// refusal names the provider and the file.
pub proof fn law_an_unregistered_provider_is_refused(
    provider: Seq<char>,
    settings: Option<JsonModel>,
    models: Option<JsonModel>,
    models_path: Seq<char>,
)
    requires
        provider != "soket"@,
        provider != "faux"@,
        match models {
            Some(j) => match j.member("providers"@) {
                Some(JsonModel::Array(items)) => forall|i: int|
                    0 <= i < items.len() ==> (#[trigger] items[i]).member("id"@) != Some(
                        JsonModel::Text(provider),
                    ),
                _ => true,
            },
            None => true,
        },
    ensures
        provider_model(Some(provider), settings, models, models_path) is Err,
        ("provider "@ + debug_model(provider) + " is not registered in "@ + models_path
            + " (or that file doesn't exist)."@).is_prefix_of(
            provider_model(Some(provider), settings, models, models_path)->Err_0,
        ),
{
    if models is Some && (models->0).member("providers"@) is Some {
        let list = (models->0).member("providers"@)->0;
        if list is Array {
            let items = list->Array_0;
            assert forall|i: int| 0 <= i < items.len() implies (#[trigger] items[i]).text_member(
                "id"@,
            ) != Some(provider) by {
                assert(items[i].member("id"@) != Some(JsonModel::Text(provider)));
            }
        }
    }
    let words =
        " (or that file doesn't exist). Without this check, the harness would silently fall back to the built-in 'soket' provider instead of failing here — you'd see 'harness ready \u{2014} provider soket' below and every real message would fail with a confusing auth error against a provider you never configured. Fix: either add an entry for "@;
    reveal_strlit(" (or that file doesn't exist).");
    reveal_strlit(
        " (or that file doesn't exist). Without this check, the harness would silently fall back to the built-in 'soket' provider instead of failing here — you'd see 'harness ready \u{2014} provider soket' below and every real message would fail with a confusing auth error against a provider you never configured. Fix: either add an entry for ",
    );
    let first = " (or that file doesn't exist)."@;
    assert(first =~= words.take(first.len() as int));
    let start = "provider "@ + debug_model(provider) + " is not registered in "@ + models_path
        + first;
    let said = provider_model(Some(provider), settings, models, models_path)->Err_0;
    assert(said == unregistered_message(provider, models_path));
    assert(start =~= said.take(start.len() as int));
}

/// Where no provider is configured the settings' default is treated as if it
/// were configured, and without one `soket` is.
pub proof fn law_the_default_provider_stands_in(
    settings: Option<JsonModel>,
    models: Option<JsonModel>,
    models_path: Seq<char>,
    provider: Seq<char>,
)
    ensures
        settings is Some && (settings->0).member("defaultProvider"@) == Some(
            JsonModel::Text(provider),
        ) ==> provider_model(None, settings, models, models_path) == provider_model(
            Some(provider),
            settings,
            models,
            models_path,
        ),
        settings is None || (settings->0).member("defaultProvider"@) is None || !((
        settings->0).member("defaultProvider"@)->0 is Text) ==> provider_model(
            None,
            settings,
            models,
            models_path,
        ) is Ok,
{
}

/// A file that could not be read, or is not JSON, says nothing; any other says
/// what its JSON says.
pub proof fn law_files_say_what_their_json_says(text: Seq<char>, j: Json)
    ensures
        file_json(Some(text)) == parsed_json(text),
        file_json(None) is None,
        opt_json(Some(j)) == Some(j@),
        opt_json(None) is None,
{
}

/// A configured origin is the only one that may call, exactly as it is written;
/// `*` alone lets any call; one that no header can hold is refused. Where none
/// is configured, the development server may call under both its names.
pub proof fn law_origins_are_those_configured(origin: Seq<char>)
    ensures
        origin == "*"@ ==> cors_model(Some(origin)) == Ok::<CorsModel, Seq<char>>(
            CorsModel::AnyOrigin,
        ),
        origin != "*"@ && (forall|i: int|
            0 <= i < encode_utf8(origin).len() ==> {
                let b = #[trigger] encode_utf8(origin)[i];
                b == 9 || 32 <= b <= 126 || b >= 128
            }) ==> cors_model(Some(origin)) == Ok::<CorsModel, Seq<char>>(
            CorsModel::Origins(seq![origin]),
        ),
        origin != "*"@ && (exists|i: int|
            0 <= i < encode_utf8(origin).len() && {
                let b = #[trigger] encode_utf8(origin)[i];
                b < 9 || 10 <= b <= 31 || b == 127
            }) ==> {
            &&& cors_model(Some(origin)) is Err
            &&& ("invalid LOOP_SERVER_CORS_ORIGIN "@ + debug_model(origin)).is_prefix_of(
                cors_model(Some(origin))->Err_0,
            )
        },
        cors_model(None) == Ok::<CorsModel, Seq<char>>(
            CorsModel::Origins(seq!["http://localhost:5173"@, "http://127.0.0.1:5173"@]),
        ),
{
    let bytes = encode_utf8(origin);
    if origin != "*"@ && !is_header_value(bytes) {
        let start = "invalid LOOP_SERVER_CORS_ORIGIN "@ + debug_model(origin);
        let said = cors_model(Some(origin))->Err_0;
        assert(start =~= said.take(start.len() as int));
    }
    if origin != "*"@ && exists|i: int|
        0 <= i < bytes.len() && {
            let b = #[trigger] bytes[i];
            b < 9 || 10 <= b <= 31 || b == 127
        } {
        let i = choose|i: int|
            0 <= i < bytes.len() && {
                let b = #[trigger] bytes[i];
                b < 9 || 10 <= b <= 31 || b == 127
            };
        assert(!is_header_byte(bytes[i]));
    }
}

/// Nothing of who may call is left out of what is said of it.
pub proof fn law_policies_are_told_apart(a: CorsPolicy, b: CorsPolicy)
    requires
        a@ == b@,
    ensures
        match (a, b) {
            (CorsPolicy::AnyOrigin, CorsPolicy::AnyOrigin) => true,
            (CorsPolicy::Origins(x), CorsPolicy::Origins(y)) => {
                &&& x@.len() == y@.len()
                &&& forall|i: int| 0 <= i < x@.len() ==> (#[trigger] x@[i])@ == y@[i]@
            },
            _ => false,
        },
{
    if a is Origins {
        let x = a->Origins_0@;
        let y = b->Origins_0@;
        assert(texts_model(x).len() == x.len());
        assert(texts_model(y).len() == y.len());
        assert forall|i: int| 0 <= i < x.len() implies (#[trigger] x[i])@ == y[i]@ by {
            assert(texts_model(x)[i] == x[i]@);
            assert(texts_model(y)[i] == y[i]@);
        }
    }
}

/// A number that is no port, and where none is configured, the default port
/// stands in.
pub proof fn law_no_other_number_is_a_port(n: nat)
    requires
        n > 65535,
    ensures
        port_model(Some(decimal_model(n))) == 8787,
        port_model(None) == 8787,
        port_model(Some(Seq::empty())) == 8787,
        port_model(Some(seq!['+'])) == 8787,
{
    lemma_decimal_digits(n);
    let s = decimal_model(n);
    assert(is_digit(s[0]));
    assert(without_plus(s) == s);
    assert(seq!['+'].skip(1) =~= Seq::empty());
}

/// A plus sign in front of digits, and zeros, make no difference to the port.
pub proof fn law_signs_and_zeros_make_no_difference(digits: Seq<char>)
    requires
        digits.len() > 0,
        forall|i: int| 0 <= i < digits.len() ==> '0' <= #[trigger] digits[i] <= '9',
    ensures
        port_model(Some(seq!['+'] + digits)) == port_model(Some(digits)),
        port_model(Some(seq!['0'] + digits)) == port_model(Some(digits)),
{
    assert((seq!['+'] + digits).skip(1) =~= digits);
    assert('0' <= digits[0] <= '9');
    assert(without_plus(digits) == digits);
    let zero = seq!['0'] + digits;
    assert(without_plus(zero) == zero);
    assert forall|i: int| 0 <= i < zero.len() implies is_digit(#[trigger] zero[i]) by {
        if i > 0 {
            assert(zero[i] == digits[i - 1]);
        }
    }
    assert forall|i: int| 0 <= i < digits.len() implies is_digit(#[trigger] digits[i]) by {}
    lemma_zero_in_front(digits);
}

proof fn lemma_zero_in_front(digits: Seq<char>)
    ensures
        digits_value(seq!['0'] + digits) == digits_value(digits),
    decreases digits.len(),
{
    let zero = seq!['0'] + digits;
    if digits.len() == 0 {
        assert(zero.drop_last() =~= Seq::empty());
        reveal_with_fuel(digits_value, 2);
    } else {
        lemma_zero_in_front(digits.drop_last());
        assert(zero.drop_last() =~= seq!['0'] + digits.drop_last());
        assert(zero.last() == digits.last());
    }
}

/// What holds anything but digits, after a plus sign or none, is no port.
pub proof fn law_only_digits_make_a_port(text: Seq<char>, i: int)
    requires
        0 <= i < text.len(),
        !('0' <= text[i] <= '9'),
        i > 0 || text[i] != '+',
    ensures
        port_model(Some(text)) == 8787,
{
    let digits = without_plus(text);
    let k = if text[0] == '+' {
        i - 1
    } else {
        i
    };
    assert(digits[k] == text[i]);
    assert(!is_digit(digits[k]));
}

} // verus!
