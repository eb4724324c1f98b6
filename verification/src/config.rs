//! The configuration of the service, fixed once at start-up.
//!
//! The program reads the environment and the command line and hands the
//! strings it found to [`ServiceConfig::from_environment`]. What comes back
//! has no setter: every worker may share it without a lock.

use crate::error::ConfigurationError;
use crate::key::KeyStore;
use vstd::prelude::*;
use vstd::string::*;

verus! {

/// Whether a character has the Unicode property `White_Space`.
pub open spec fn is_unicode_white_space(c: char) -> bool {
    ||| '\u{9}' <= c <= '\u{d}'
    ||| c == ' '
    ||| c == '\u{85}'
    ||| c == '\u{a0}'
    ||| c == '\u{1680}'
    ||| '\u{2000}' <= c <= '\u{200a}'
    ||| c == '\u{2028}'
    ||| c == '\u{2029}'
    ||| c == '\u{202f}'
    ||| c == '\u{205f}'
    ||| c == '\u{3000}'
}

/// How many white-space characters stand at the front of `text`.
pub open spec fn leading_space(text: Seq<char>) -> nat
    decreases text.len(),
{
    if text.len() > 0 && is_unicode_white_space(text[0]) {
        1 + leading_space(text.drop_first())
    } else {
        0
    }
}

/// `text` without the white space at its end.
pub open spec fn trim_end(text: Seq<char>) -> Seq<char>
    decreases text.len(),
{
    if text.len() > 0 && is_unicode_white_space(text.last()) {
        trim_end(text.drop_last())
    } else {
        text
    }
}

/// `text` without the white space at either end.
pub open spec fn trimmed(text: Seq<char>) -> Seq<char> {
    trim_end(text.skip(leading_space(text) as int))
}

/// The index of the first comma in `text`, or its length where it has none.
pub open spec fn first_comma(text: Seq<char>) -> nat
    decreases text.len(),
{
    if text.len() == 0 || text[0] == ',' {
        0
    } else {
        1 + first_comma(text.drop_first())
    }
}

/// The entries of a comma-separated list, each one trimmed. A text with `n`
/// commas has `n + 1` entries, empty ones included; the empty text has one.
pub open spec fn origins_of(text: Seq<char>) -> Seq<Seq<char>>
    decreases text.len(),
{
    let i = first_comma(text);
    if i >= text.len() {
        seq![trimmed(text)]
    } else {
        seq![trimmed(text.subrange(0, i as int))] + origins_of(text.skip(i as int + 1))
    }
}

/// The texts of a list of strings.
pub open spec fn texts(list: Seq<String>) -> Seq<Seq<char>> {
    Seq::new(list.len(), |i: int| list[i]@)
}

/// Whether a list of origins is the single entry `*`, which admits any
/// origin.
pub open spec fn is_wildcard(origins: Seq<Seq<char>>) -> bool {
    origins.len() == 1 && origins[0] == seq!['*']
}

/// Whether a character is white space, as `char::is_whitespace` has it.
pub fn is_whitespace(c: char) -> (yes: bool)
    ensures
        yes == is_unicode_white_space(c),
{
    ('\u{9}' <= c && c <= '\u{d}') || c == ' ' || c == '\u{85}' || c == '\u{a0}' || c
        == '\u{1680}' || ('\u{2000}' <= c && c <= '\u{200a}') || c == '\u{2028}' || c
        == '\u{2029}' || c == '\u{202f}' || c == '\u{205f}' || c == '\u{3000}'
}

/// The white space at the front of `text` is its first `k` characters.
proof fn lemma_leading_space(text: Seq<char>, k: int)
    requires
        0 <= k <= text.len(),
        forall|j: int| 0 <= j < k ==> is_unicode_white_space(#[trigger] text[j]),
        k == text.len() || !is_unicode_white_space(text[k]),
    ensures
        leading_space(text) == k,
    decreases k,
{
    if k > 0 {
        let tail = text.drop_first();
        assert(is_unicode_white_space(text[0]));
        assert forall|j: int| 0 <= j < k - 1 implies is_unicode_white_space(#[trigger] tail[j]) by {
            assert(tail[j] == text[j + 1]);
        }
        lemma_leading_space(tail, k - 1);
    }
}

/// The white space at the end of `text` is what follows its first `e`
/// characters.
proof fn lemma_trim_end(text: Seq<char>, e: int)
    requires
        0 <= e <= text.len(),
        forall|j: int| e <= j < text.len() ==> is_unicode_white_space(#[trigger] text[j]),
        e == 0 || !is_unicode_white_space(text[e - 1]),
    ensures
        trim_end(text) == text.subrange(0, e),
    decreases text.len(),
{
    if e < text.len() {
        let front = text.drop_last();
        lemma_trim_end(front, e);
        assert(front.subrange(0, e) == text.subrange(0, e));
    } else {
        assert(text.subrange(0, e) == text);
    }
}

/// The first comma of `text` is at `k`, or `text` has none and `k` is its
/// length.
proof fn lemma_first_comma(text: Seq<char>, k: int)
    requires
        0 <= k <= text.len(),
        forall|j: int| 0 <= j < k ==> #[trigger] text[j] != ',',
        k == text.len() || text[k] == ',',
    ensures
        first_comma(text) == k,
    decreases k,
{
    if k > 0 {
        let tail = text.drop_first();
        assert(text[0] != ',');
        assert forall|j: int| 0 <= j < k - 1 implies #[trigger] tail[j] != ',' by {
            assert(tail[j] == text[j + 1]);
        }
        lemma_first_comma(tail, k - 1);
    }
}

/// The default list of origins, `*`, admits any origin.
pub proof fn lemma_default_admits_any_origin()
    ensures
        is_wildcard(origins_of("*"@)),
{
    reveal_strlit("*");
    let star = "*"@;
    lemma_first_comma(star, 1);
    lemma_leading_space(star, 0);
    assert(star.skip(0) == star);
    lemma_trim_end(star, 1);
    assert(star.subrange(0, 1) == star);
    assert(star =~= seq!['*']);
}

/// The characters `from..to` of `text`, trimmed.
fn trimmed_piece(text: &str, from: usize, to: usize) -> (piece: String)
    requires
        from <= to <= text@.len(),
    ensures
        piece@ == trimmed(text@.subrange(from as int, to as int)),
{
    let mut a = from;
    while a < to && is_whitespace(text.get_char(a))
        invariant
            from <= a <= to <= text@.len(),
            forall|j: int| from <= j < a ==> is_unicode_white_space(#[trigger] text@[j]),
        decreases to - a,
    {
        a += 1;
    }
    let mut b = to;
    while b > a && is_whitespace(text.get_char(b - 1))
        invariant
            a <= b <= to <= text@.len(),
            forall|j: int| b <= j < to ==> is_unicode_white_space(#[trigger] text@[j]),
        decreases b - a,
    {
        b -= 1;
    }
    proof {
        let piece = text@.subrange(from as int, to as int);
        assert forall|j: int| 0 <= j < a - from implies is_unicode_white_space(#[trigger] piece[j]) by {
            assert(piece[j] == text@[from + j]);
        }
        lemma_leading_space(piece, a - from);
        let body = piece.skip(a - from);
        assert(body == text@.subrange(a as int, to as int));
        assert forall|j: int| b - a <= j < body.len() implies is_unicode_white_space(
            #[trigger] body[j],
        ) by {
            assert(body[j] == text@[a + j]);
        }
        lemma_trim_end(body, b - a);
        assert(body.subrange(0, b - a) == text@.subrange(a as int, b as int));
    }
    text.substring_char(a, b).to_owned()
}

/// Reads a comma-separated list of origins: split at every comma, each
/// entry trimmed, none dropped.
pub fn parse_origins(origin: &str) -> (origins: Vec<String>)
    ensures
        texts(origins@) == origins_of(origin@),
{
    let n = origin.unicode_len();
    let mut origins: Vec<String> = Vec::new();
    let mut start: usize = 0;
    let mut i: usize = 0;
    proof {
        assert(origin@.skip(0) == origin@);
        assert(texts(origins@) + origins_of(origin@) == origins_of(origin@));
    }
    while i < n
        invariant
            start <= i <= n,
            n == origin@.len(),
            forall|j: int| start <= j < i ==> #[trigger] origin@[j] != ',',
            origins_of(origin@) == texts(origins@) + origins_of(origin@.skip(start as int)),
        decreases n - i,
    {
        if origin.get_char(i) == ',' {
            let piece = trimmed_piece(origin, start, i);
            proof {
                let rest = origin@.skip(start as int);
                assert forall|j: int| 0 <= j < i - start implies #[trigger] rest[j] != ',' by {
                    assert(rest[j] == origin@[start + j]);
                }
                lemma_first_comma(rest, i - start);
                assert(rest.subrange(0, i - start) == origin@.subrange(start as int, i as int));
                assert(rest.skip(i - start + 1) == origin@.skip(i + 1));
                assert(texts(origins@.push(piece)) == texts(origins@) + seq![piece@]);
            }
            origins.push(piece);
            start = i + 1;
        }
        i += 1;
    }
    let piece = trimmed_piece(origin, start, n);
    proof {
        let rest = origin@.skip(start as int);
        assert forall|j: int| 0 <= j < n - start implies #[trigger] rest[j] != ',' by {
            assert(rest[j] == origin@[start + j]);
        }
        lemma_first_comma(rest, n - start);
        assert(rest == origin@.subrange(start as int, n as int));
        assert(texts(origins@.push(piece)) == texts(origins@) + seq![piece@]);
    }
    origins.push(piece);
    origins
}

/// A configuration as plain values.
pub struct ConfigView {
    pub bind_to: Seq<char>,
    pub port: Seq<char>,
    pub log_level: Seq<char>,
    pub origins: Seq<Seq<char>>,
    pub key_path: Seq<char>,
}

/// The text of a setting: what the environment held, or the default.
pub open spec fn setting(value: Option<String>, default: Seq<char>) -> Seq<char> {
    match value {
        Some(text) => text@,
        None => default,
    }
}

/// The configuration that the given environment and command line stand
/// for. The address defaults to `0.0.0.0`, the port to `8888`, the log
/// level to `info` and the origins to `*`. The key file path has no
/// default: without it there is no configuration.
pub open spec fn config_for(
    bind_to: Option<String>,
    port: Option<String>,
    log_level: Option<String>,
    origin: Option<String>,
    key_path: Option<String>,
) -> Result<ConfigView, ConfigurationError> {
    match key_path {
        None => Err(ConfigurationError::MissingKeyPath),
        Some(path) => Ok(
            ConfigView {
                bind_to: setting(bind_to, "0.0.0.0"@),
                port: setting(port, "8888"@),
                log_level: setting(log_level, "info"@),
                origins: origins_of(setting(origin, "*"@)),
                key_path: path@,
            },
        ),
    }
}

/// The view of the result of reading a configuration.
pub open spec fn config_view(outcome: Result<ServiceConfig, ConfigurationError>) -> Result<
    ConfigView,
    ConfigurationError,
> {
    match outcome {
        Ok(config) => Ok(config@),
        Err(e) => Err(e),
    }
}

/// What the check of the key file at start-up gives: the path to serve
/// from where the file exists, and an error where it does not.
pub open spec fn key_file_check(key_path: Seq<char>, exists: bool) -> Result<
    Seq<char>,
    ConfigurationError,
> {
    if exists {
        Ok(key_path)
    } else {
        Err(ConfigurationError::KeyFileNotFound)
    }
}

/// The view of the result of the check of the key file.
pub open spec fn store_view(outcome: Result<KeyStore, ConfigurationError>) -> Result<
    Seq<char>,
    ConfigurationError,
> {
    match outcome {
        Ok(store) => Ok(store.spec_path()),
        Err(e) => Err(e),
    }
}

/// Where to listen, whom to admit, how much to log and where the key is.
#[derive(Debug, Clone, PartialEq, Eq)]
pub struct ServiceConfig {
    bind_to: String,
    port: String,
    log_level: String,
    origins: Vec<String>,
    key_path: String,
}

impl View for ServiceConfig {
    type V = ConfigView;

    closed spec fn view(&self) -> ConfigView {
        ConfigView {
            bind_to: self.bind_to@,
            port: self.port@,
            log_level: self.log_level@,
            origins: texts(self.origins@),
            key_path: self.key_path@,
        }
    }
}

/// A setting from the environment, or its default.
fn or_default(value: Option<String>, default: &str) -> (text: String)
    ensures
        text@ == setting(value, default@),
{
    match value {
        Some(text) => text,
        None => default.to_owned(),
    }
}

impl ServiceConfig {
    /// Builds the configuration from `BIND_TO`, `PORT`, `LOG_LEVEL` and
    /// `ORIGIN` as the environment held them, and from the first argument
    /// of the command line. An absent key file path is an error.
    pub fn from_environment(
        bind_to: Option<String>,
        port: Option<String>,
        log_level: Option<String>,
        origin: Option<String>,
        key_path: Option<String>,
    ) -> (outcome: Result<ServiceConfig, ConfigurationError>)
        ensures
            config_view(outcome) == config_for(bind_to, port, log_level, origin, key_path),
    {
        let key_path = match key_path {
            Some(path) => path,
            None => {
                return Err(ConfigurationError::MissingKeyPath);
            },
        };
        let origin = or_default(origin, "*");
        Ok(
            ServiceConfig {
                bind_to: or_default(bind_to, "0.0.0.0"),
                port: or_default(port, "8888"),
                log_level: or_default(log_level, "info"),
                origins: parse_origins(origin.as_str()),
                key_path,
            },
        )
    }

    /// The address to bind to.
    pub fn bind_to(&self) -> (text: &str)
        ensures
            text@ == self@.bind_to,
    {
        self.bind_to.as_str()
    }

    /// The port to bind to, as text.
    pub fn port(&self) -> (text: &str)
        ensures
            text@ == self@.port,
    {
        self.port.as_str()
    }

    /// The default log filter.
    pub fn log_level(&self) -> (text: &str)
        ensures
            text@ == self@.log_level,
    {
        self.log_level.as_str()
    }

    /// The path of the private key file.
    pub fn key_path(&self) -> (text: &str)
        ensures
            text@ == self@.key_path,
    {
        self.key_path.as_str()
    }

    /// The configured origins, in the order given.
    pub fn allowed_origins(&self) -> (origins: &Vec<String>)
        ensures
            texts(origins@) == self@.origins,
    {
        &self.origins
    }

    /// Whether any origin is admitted: the list is the single entry `*`.
    pub fn allows_any_origin(&self) -> (any: bool)
        ensures
            any == is_wildcard(self@.origins),
    {
        if self.origins.len() != 1 {
            return false;
        }
        let only = self.origins[0].as_str();
        if only.unicode_len() != 1 {
            return false;
        }
        let c = only.get_char(0);
        proof {
            assert(self@.origins[0] == only@);
            if c == '*' {
                assert(only@ =~= seq!['*']);
            } else {
                assert(only@[0] != seq!['*'][0]);
            }
        }
        c == '*'
    }

    /// The socket address to bind: the address, a colon, the port.
    pub fn bind_address(&self) -> (address: String)
        ensures
            address@ == self@.bind_to + seq![':'] + self@.port,
    {
        proof {
            reveal_strlit(":");
        }
        let mut address = self.bind_to.clone();
        address.append(":");
        address.append(self.port.as_str());
        address
    }

    /// The check of the key file at start-up. `exists` says whether
    /// anything is at `key_path()`. Where nothing is, the process must exit
    /// before it binds a socket; where the file is there, this gives the
    /// store that requests load the key from. The check is made once and
    /// spares no later load its own.
    pub fn confirm_key_file(&self, exists: bool) -> (outcome: Result<KeyStore, ConfigurationError>)
        ensures
            store_view(outcome) == key_file_check(self@.key_path, exists),
    {
        if exists {
            Ok(KeyStore::new(self.key_path.clone()))
        } else {
            Err(ConfigurationError::KeyFileNotFound)
        }
    }
}

} // verus!
