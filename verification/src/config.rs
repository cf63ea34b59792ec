//! The configuration schema: a typed value with one default per field,
//! validators for the fields that carry structured text, and the repair pass
//! that resets invalid fields to their defaults.

use vstd::prelude::*;
use crate::text::{all_digits, digit_val, digits_val, is_digit, is_digit_char, is_ws_char, trim, trim_spec, str_eq};
use crate::toml_doc::{
    KvV, SectionV, TomlDoc, TomlKv, TomlSection, TomlValue, ValueV, clean_doc, clean_key,
    clean_name, clean_section, clean_value, doc_values_clean, find_kv, find_section, lookup,
    lookup_spec, parse_doc_spec, parse_document, render_doc_spec, render_document,
    string_content_clean,
};

verus! {

/// Bot token and shard count.
pub struct RedConfig {
    pub token: String,
    pub shards: u64,
}

/// Logging options.
pub struct LoggingConfig {
    pub log_level: String,
    pub directory: String,
    pub extra_logs: bool,
}

/// Log rotation options.
pub struct LogRotateConfig {
    pub frequency: String,
    pub rotation_time: String,
}

/// Debug options.
pub struct DebugConfig {
    pub enable_debug: bool,
    pub debug_server_id: String,
}

/// The whole configuration.
pub struct Config {
    pub red: RedConfig,
    pub logging: LoggingConfig,
    pub logrotate: LogRotateConfig,
    pub debug: DebugConfig,
}

/// Mathematical counterpart of `RedConfig`.
#[verifier::ext_equal]
pub struct RedConfigV {
    pub token: Seq<char>,
    pub shards: u64,
}

/// Mathematical counterpart of `LoggingConfig`.
#[verifier::ext_equal]
pub struct LoggingConfigV {
    pub log_level: Seq<char>,
    pub directory: Seq<char>,
    pub extra_logs: bool,
}

/// Mathematical counterpart of `LogRotateConfig`.
#[verifier::ext_equal]
pub struct LogRotateConfigV {
    pub frequency: Seq<char>,
    pub rotation_time: Seq<char>,
}

/// Mathematical counterpart of `DebugConfig`.
#[verifier::ext_equal]
pub struct DebugConfigV {
    pub enable_debug: bool,
    pub debug_server_id: Seq<char>,
}

/// Mathematical counterpart of `Config`.
#[verifier::ext_equal]
pub struct ConfigV {
    pub red: RedConfigV,
    pub logging: LoggingConfigV,
    pub logrotate: LogRotateConfigV,
    pub debug: DebugConfigV,
}

impl View for RedConfig {
    type V = RedConfigV;

    open spec fn view(&self) -> RedConfigV {
        RedConfigV { token: self.token@, shards: self.shards }
    }
}

impl View for LoggingConfig {
    type V = LoggingConfigV;

    open spec fn view(&self) -> LoggingConfigV {
        LoggingConfigV {
            log_level: self.log_level@,
            directory: self.directory@,
            extra_logs: self.extra_logs,
        }
    }
}

impl View for LogRotateConfig {
    type V = LogRotateConfigV;

    open spec fn view(&self) -> LogRotateConfigV {
        LogRotateConfigV { frequency: self.frequency@, rotation_time: self.rotation_time@ }
    }
}

impl View for DebugConfig {
    type V = DebugConfigV;

    open spec fn view(&self) -> DebugConfigV {
        DebugConfigV {
            enable_debug: self.enable_debug,
            debug_server_id: self.debug_server_id@,
        }
    }
}

impl View for Config {
    type V = ConfigV;

    open spec fn view(&self) -> ConfigV {
        ConfigV {
            red: self.red@,
            logging: self.logging@,
            logrotate: self.logrotate@,
            debug: self.debug@,
        }
    }
}

// ---------------------------------------------------------------------------
// Defaults
// ---------------------------------------------------------------------------

/// Default token: a placeholder the operator must replace.
pub open spec fn default_token_spec() -> Seq<char> {
    "placeholder_token"@
}

/// Default shard count.
pub open spec fn default_shards_spec() -> u64 {
    1
}

/// Default log level.
pub open spec fn default_log_level_spec() -> Seq<char> {
    "info"@
}

/// Default log directory.
pub open spec fn default_directory_spec() -> Seq<char> {
    "logs"@
}

/// Default for the sidecar sinks switch.
pub open spec fn default_extra_logs_spec() -> bool {
    true
}

/// Default retention, as duration text.
pub open spec fn default_frequency_spec() -> Seq<char> {
    "7d"@
}

/// Default daily rotation time.
pub open spec fn default_rotation_time_spec() -> Seq<char> {
    "00:00"@
}

/// Default for the debug switch.
pub open spec fn default_enable_debug_spec() -> bool {
    false
}

/// Default debug guild id.
pub open spec fn default_debug_server_id_spec() -> Seq<char> {
    "000000000000000000"@
}

/// The configuration value with every field at its default.
pub open spec fn default_config_spec() -> ConfigV {
    ConfigV {
        red: RedConfigV { token: default_token_spec(), shards: default_shards_spec() },
        logging: LoggingConfigV {
            log_level: default_log_level_spec(),
            directory: default_directory_spec(),
            extra_logs: default_extra_logs_spec(),
        },
        logrotate: LogRotateConfigV {
            frequency: default_frequency_spec(),
            rotation_time: default_rotation_time_spec(),
        },
        debug: DebugConfigV {
            enable_debug: default_enable_debug_spec(),
            debug_server_id: default_debug_server_id_spec(),
        },
    }
}

/// Default token text.
pub fn default_token() -> (r: String)
    ensures
        r@ == default_token_spec(),
{
    "placeholder_token".to_owned()
}

/// Default shard count.
pub fn default_shards() -> (r: u64)
    ensures
        r == default_shards_spec(),
{
    1
}

/// Default log level text.
pub fn default_log_level() -> (r: String)
    ensures
        r@ == default_log_level_spec(),
{
    "info".to_owned()
}

/// Default log directory text.
pub fn default_directory() -> (r: String)
    ensures
        r@ == default_directory_spec(),
{
    "logs".to_owned()
}

/// Default for the sidecar sinks switch.
pub fn default_extra_logs() -> (r: bool)
    ensures
        r == default_extra_logs_spec(),
{
    true
}

/// Default retention text.
pub fn default_frequency() -> (r: String)
    ensures
        r@ == default_frequency_spec(),
{
    "7d".to_owned()
}

/// Default rotation time text.
pub fn default_rotation_time() -> (r: String)
    ensures
        r@ == default_rotation_time_spec(),
{
    "00:00".to_owned()
}

/// Default for the debug switch.
pub fn default_enable_debug() -> (r: bool)
    ensures
        r == default_enable_debug_spec(),
{
    false
}

/// Default debug guild id text.
pub fn default_debug_server_id() -> (r: String)
    ensures
        r@ == default_debug_server_id_spec(),
{
    "000000000000000000".to_owned()
}

impl Default for RedConfig {
    fn default() -> (r: Self)
        ensures
            r@ == default_config_spec().red,
    {
        RedConfig { token: default_token(), shards: default_shards() }
    }
}

impl Default for LoggingConfig {
    fn default() -> (r: Self)
        ensures
            r@ == default_config_spec().logging,
    {
        LoggingConfig {
            log_level: default_log_level(),
            directory: default_directory(),
            extra_logs: default_extra_logs(),
        }
    }
}

impl Default for LogRotateConfig {
    fn default() -> (r: Self)
        ensures
            r@ == default_config_spec().logrotate,
    {
        LogRotateConfig { frequency: default_frequency(), rotation_time: default_rotation_time() }
    }
}

impl Default for DebugConfig {
    fn default() -> (r: Self)
        ensures
            r@ == default_config_spec().debug,
    {
        DebugConfig {
            enable_debug: default_enable_debug(),
            debug_server_id: default_debug_server_id(),
        }
    }
}

impl Default for Config {
    fn default() -> (r: Self)
        ensures
            r@ == default_config_spec(),
    {
        Config {
            red: RedConfig::default(),
            logging: LoggingConfig::default(),
            logrotate: LogRotateConfig::default(),
            debug: DebugConfig::default(),
        }
    }
}

// ---------------------------------------------------------------------------
// Validators
// ---------------------------------------------------------------------------

/// ASCII lower-casing of one character.
pub open spec fn lower_char(c: char) -> char {
    if c == 'A' { 'a' }
    else if c == 'B' { 'b' }
    else if c == 'C' { 'c' }
    else if c == 'D' { 'd' }
    else if c == 'E' { 'e' }
    else if c == 'F' { 'f' }
    else if c == 'G' { 'g' }
    else if c == 'H' { 'h' }
    else if c == 'I' { 'i' }
    else if c == 'J' { 'j' }
    else if c == 'K' { 'k' }
    else if c == 'L' { 'l' }
    else if c == 'M' { 'm' }
    else if c == 'N' { 'n' }
    else if c == 'O' { 'o' }
    else if c == 'P' { 'p' }
    else if c == 'Q' { 'q' }
    else if c == 'R' { 'r' }
    else if c == 'S' { 's' }
    else if c == 'T' { 't' }
    else if c == 'U' { 'u' }
    else if c == 'V' { 'v' }
    else if c == 'W' { 'w' }
    else if c == 'X' { 'x' }
    else if c == 'Y' { 'y' }
    else if c == 'Z' { 'z' }
    else { c }
}

/// ASCII lower-casing of a character sequence.
pub open spec fn ascii_lower_spec(s: Seq<char>) -> Seq<char> {
    Seq::new(s.len(), |i: int| lower_char(s[i]))
}

/// ASCII lower-casing of one character, executable form.
pub fn lower_char_exec(c: char) -> (r: char)
    ensures
        r == lower_char(c),
{
    if c == 'A' { 'a' }
    else if c == 'B' { 'b' }
    else if c == 'C' { 'c' }
    else if c == 'D' { 'd' }
    else if c == 'E' { 'e' }
    else if c == 'F' { 'f' }
    else if c == 'G' { 'g' }
    else if c == 'H' { 'h' }
    else if c == 'I' { 'i' }
    else if c == 'J' { 'j' }
    else if c == 'K' { 'k' }
    else if c == 'L' { 'l' }
    else if c == 'M' { 'm' }
    else if c == 'N' { 'n' }
    else if c == 'O' { 'o' }
    else if c == 'P' { 'p' }
    else if c == 'Q' { 'q' }
    else if c == 'R' { 'r' }
    else if c == 'S' { 's' }
    else if c == 'T' { 't' }
    else if c == 'U' { 'u' }
    else if c == 'V' { 'v' }
    else if c == 'W' { 'w' }
    else if c == 'X' { 'x' }
    else if c == 'Y' { 'y' }
    else if c == 'Z' { 'z' }
    else { c }
}

/// Does `a`, lower-cased, equal `b`?
pub fn eq_lowered(a: &str, b: &str) -> (r: bool)
    ensures
        r == (ascii_lower_spec(a@) == b@),
{
    let na = a.unicode_len();
    let nb = b.unicode_len();
    if na != nb {
        assert(ascii_lower_spec(a@).len() == a@.len());
        return false;
    }
    let mut i: usize = 0;
    while i < na
        invariant
            0 <= i <= na,
            na == a@.len(),
            na == b@.len(),
            forall|j: int| 0 <= j < i ==> lower_char(a@[j]) == b@[j],
        decreases na - i,
    {
        if lower_char_exec(a.get_char(i)) != b.get_char(i) {
            assert(ascii_lower_spec(a@)[i as int] != b@[i as int]);
            return false;
        }
        i = i + 1;
    }
    assert(ascii_lower_spec(a@) =~= b@);
    true
}

/// A recognised log level, compared without regard to ASCII case.
pub open spec fn spec_valid_log_level(s: Seq<char>) -> bool {
    let l = ascii_lower_spec(s);
    l == "error"@ || l == "warn"@ || l == "info"@ || l == "debug"@ || l == "trace"@
}

/// A well-formed retention duration: digits followed by a unit letter.
pub open spec fn spec_valid_frequency(s: Seq<char>) -> bool {
    let f = trim_spec(s);
    f.len() >= 2 && (f.last() == 'd' || f.last() == 'h' || f.last() == 'm') && all_digits(
        f.drop_last(),
    )
}

/// A well-formed rotation time: `HH:MM` with `HH` below 24 and `MM` below 60.
pub open spec fn spec_valid_rotation_time(s: Seq<char>) -> bool {
    s.len() == 5 && is_digit_char(s[0]) && is_digit_char(s[1]) && s[2] == ':' && is_digit_char(
        s[3],
    ) && is_digit_char(s[4]) && digit_val(s[0]) * 10 + digit_val(s[1]) < 24 && digit_val(s[3])
        * 10 + digit_val(s[4]) < 60
}

/// Non-empty ASCII digits.
pub open spec fn spec_valid_numeric(s: Seq<char>) -> bool {
    s.len() > 0 && all_digits(s)
}

/// Executable log-level validator.
pub fn is_valid_log_level(s: &str) -> (r: bool)
    ensures
        r == spec_valid_log_level(s@),
{
    eq_lowered(s, "error") || eq_lowered(s, "warn") || eq_lowered(s, "info") || eq_lowered(
        s,
        "debug",
    ) || eq_lowered(s, "trace")
}

/// Executable retention-duration validator.
pub fn is_valid_frequency(s: &str) -> (r: bool)
    ensures
        r == spec_valid_frequency(s@),
{
    let f = trim(s);
    let n = f.unicode_len();
    if n < 2 {
        return false;
    }
    let unit = f.get_char(n - 1);
    if unit != 'd' && unit != 'h' && unit != 'm' {
        return false;
    }
    let mut i: usize = 0;
    while i < n - 1
        invariant
            0 <= i <= n - 1,
            n == f@.len(),
            n >= 2,
            f@ == trim_spec(s@),
            f@.last() == 'd' || f@.last() == 'h' || f@.last() == 'm',
            forall|j: int| 0 <= j < i ==> is_digit_char(#[trigger] f@[j]),
        decreases n - i,
    {
        if !is_digit(f.get_char(i)) {
            assert(!all_digits(f@.drop_last())) by {
                assert(f@.drop_last()[i as int] == f@[i as int]);
            }
            return false;
        }
        i = i + 1;
    }
    assert(all_digits(f@.drop_last())) by {
        assert(forall|j: int| 0 <= j < f@.len() - 1 ==> f@.drop_last()[j] == f@[j]);
    }
    true
}

/// Executable rotation-time validator.
pub fn is_valid_rotation_time(s: &str) -> (r: bool)
    ensures
        r == spec_valid_rotation_time(s@),
{
    let n = s.unicode_len();
    if n != 5 {
        return false;
    }
    let c0 = s.get_char(0);
    let c1 = s.get_char(1);
    let c2 = s.get_char(2);
    let c3 = s.get_char(3);
    let c4 = s.get_char(4);
    if !is_digit(c0) || !is_digit(c1) || c2 != ':' || !is_digit(c3) || !is_digit(c4) {
        return false;
    }
    let hour: u32 = (c0 as u32 - 48) * 10 + (c1 as u32 - 48);
    let minute: u32 = (c3 as u32 - 48) * 10 + (c4 as u32 - 48);
    hour < 24 && minute < 60
}

/// Executable numeric-text validator.
pub fn is_valid_numeric(s: &str) -> (r: bool)
    ensures
        r == spec_valid_numeric(s@),
{
    let n = s.unicode_len();
    if n == 0 {
        return false;
    }
    let mut i: usize = 0;
    while i < n
        invariant
            0 <= i <= n,
            n == s@.len(),
            forall|j: int| 0 <= j < i ==> is_digit_char(#[trigger] s@[j]),
        decreases n - i,
    {
        if !is_digit(s.get_char(i)) {
            assert(!all_digits(s@)) by {
                assert(!is_digit_char(s@[i as int]));
            }
            return false;
        }
        i = i + 1;
    }
    true
}

// ---------------------------------------------------------------------------
// Field repair
// ---------------------------------------------------------------------------

/// Which validator a field uses.
pub enum FieldValidator {
    LogLevel,
    Frequency,
    RotationTime,
    Numeric,
}

/// What each validator accepts.
pub open spec fn validator_accepts(v: FieldValidator, s: Seq<char>) -> bool {
    match v {
        FieldValidator::LogLevel => spec_valid_log_level(s),
        FieldValidator::Frequency => spec_valid_frequency(s),
        FieldValidator::RotationTime => spec_valid_rotation_time(s),
        FieldValidator::Numeric => spec_valid_numeric(s),
    }
}

/// The warning recorded when a field is reset.
pub open spec fn warning_msg(name: Seq<char>, value: Seq<char>, def: Seq<char>) -> Seq<char> {
    "Invalid '"@ + name + "' '"@ + value + "'. Resetting to default '"@ + def + "'."@
}

/// Check one text field: leave a valid value alone, else reset it to the
/// default and hand back a warning that names the field and the rejected
/// value.
pub fn check_field(
    field: &mut String,
    default_value: &str,
    field_name: &str,
    validator: FieldValidator,
) -> (warning: Option<String>)
    ensures
        validator_accepts(validator, old(field)@) ==> final(field)@ == old(field)@ && warning
            is None,
        !validator_accepts(validator, old(field)@) ==> final(field)@ == default_value@ && (
        match warning {
            Some(w) => w@ == warning_msg(field_name@, old(field)@, default_value@),
            None => false,
        }),
{
    let valid = match validator {
        FieldValidator::LogLevel => is_valid_log_level(field.as_str()),
        FieldValidator::Frequency => is_valid_frequency(field.as_str()),
        FieldValidator::RotationTime => is_valid_rotation_time(field.as_str()),
        FieldValidator::Numeric => is_valid_numeric(field.as_str()),
    };
    if valid {
        None
    } else {
        let mut w = String::new();
        w.append("Invalid '");
        w.append(field_name);
        w.append("' '");
        w.append(field.as_str());
        w.append("'. Resetting to default '");
        w.append(default_value);
        w.append("'.");
        assert(w@ =~= warning_msg(field_name@, old(field)@, default_value@));
        *field = default_value.to_owned();
        Some(w)
    }
}

/// The configuration after the repair pass: every field that its validator
/// rejects is reset to its default, and nothing else changes.
pub open spec fn repair_spec(c: ConfigV) -> ConfigV {
    ConfigV {
        red: c.red,
        logging: LoggingConfigV {
            log_level: if spec_valid_log_level(c.logging.log_level) {
                c.logging.log_level
            } else {
                default_log_level_spec()
            },
            directory: c.logging.directory,
            extra_logs: c.logging.extra_logs,
        },
        logrotate: LogRotateConfigV {
            frequency: if spec_valid_frequency(c.logrotate.frequency) {
                c.logrotate.frequency
            } else {
                default_frequency_spec()
            },
            rotation_time: if spec_valid_rotation_time(c.logrotate.rotation_time) {
                c.logrotate.rotation_time
            } else {
                default_rotation_time_spec()
            },
        },
        debug: DebugConfigV {
            enable_debug: c.debug.enable_debug,
            debug_server_id: if spec_valid_numeric(c.debug.debug_server_id) {
                c.debug.debug_server_id
            } else {
                default_debug_server_id_spec()
            },
        },
    }
}

/// The warnings the repair pass emits, in field order.
pub open spec fn repair_warnings(c: ConfigV) -> Seq<Seq<char>> {
    let w1: Seq<Seq<char>> = if spec_valid_log_level(c.logging.log_level) {
        seq![]
    } else {
        seq![warning_msg("log_level"@, c.logging.log_level, default_log_level_spec())]
    };
    let w2: Seq<Seq<char>> = if spec_valid_frequency(c.logrotate.frequency) {
        seq![]
    } else {
        seq![warning_msg("frequency"@, c.logrotate.frequency, default_frequency_spec())]
    };
    let w3: Seq<Seq<char>> = if spec_valid_rotation_time(c.logrotate.rotation_time) {
        seq![]
    } else {
        seq![
            warning_msg("rotation_time"@, c.logrotate.rotation_time, default_rotation_time_spec()),
        ]
    };
    let w4: Seq<Seq<char>> = if spec_valid_numeric(c.debug.debug_server_id) {
        seq![]
    } else {
        seq![
            warning_msg(
                "debug_server_id"@,
                c.debug.debug_server_id,
                default_debug_server_id_spec(),
            ),
        ]
    };
    w1 + w2 + w3 + w4
}

impl Config {
    /// A configuration with the given token and shard count and every other
    /// field at its default.
    pub fn new(token: String, shards: u64) -> (r: Self)
        ensures
            r@ == (ConfigV {
                red: RedConfigV { token: token@, shards },
                ..default_config_spec()
            }),
    {
        Config {
            red: RedConfig { token, shards },
            logging: LoggingConfig::default(),
            logrotate: LogRotateConfig::default(),
            debug: DebugConfig::default(),
        }
    }

    /// Repair the structured text fields in place, resetting each invalid one
    /// to its default, and report one warning per repaired field.
    pub fn validate_mut(&mut self) -> (warnings: Vec<String>)
        ensures
            final(self)@ == repair_spec(old(self)@),
            warnings@.len() == repair_warnings(old(self)@).len(),
            forall|i: int|
                0 <= i < warnings@.len() ==> (#[trigger] warnings@[i])@ == repair_warnings(
                    old(self)@,
                )[i],
    {
        let mut warnings: Vec<String> = Vec::new();
        let d1 = default_log_level();
        let w1 = check_field(
            &mut self.logging.log_level,
            d1.as_str(),
            "log_level",
            FieldValidator::LogLevel,
        );
        if let Some(w) = w1 {
            warnings.push(w);
        }
        let d2 = default_frequency();
        let w2 = check_field(
            &mut self.logrotate.frequency,
            d2.as_str(),
            "frequency",
            FieldValidator::Frequency,
        );
        if let Some(w) = w2 {
            warnings.push(w);
        }
        let d3 = default_rotation_time();
        let w3 = check_field(
            &mut self.logrotate.rotation_time,
            d3.as_str(),
            "rotation_time",
            FieldValidator::RotationTime,
        );
        if let Some(w) = w3 {
            warnings.push(w);
        }
        let d4 = default_debug_server_id();
        let w4 = check_field(
            &mut self.debug.debug_server_id,
            d4.as_str(),
            "debug_server_id",
            FieldValidator::Numeric,
        );
        if let Some(w) = w4 {
            warnings.push(w);
        }
        proof {
            assert(final(self)@ =~~= repair_spec(old(self)@));
            assert(forall|i: int|
                0 <= i < warnings@.len() ==> (#[trigger] warnings@[i])@ == repair_warnings(
                    old(self)@,
                )[i]);
        }
        warnings
    }
}

impl LogRotateConfig {
    /// The retention in days that the frequency text denotes: the positive
    /// number before a `d` suffix, or a bare positive number, or seven when
    /// neither reads.  Zero does not read as a retention: it would let a
    /// rotation pass delete the day partition whose sinks are still open.
    pub open spec fn spec_parse_frequency(&self) -> int {
        let f = trim_spec(self.frequency@);
        if f.len() >= 1 && f.last() == 'd' && f.drop_last().len() > 0 && all_digits(f.drop_last())
            && 1 <= digits_val(f.drop_last()) <= u64::MAX {
            digits_val(f.drop_last())
        } else if f.len() > 0 && all_digits(f) && 1 <= digits_val(f) <= u64::MAX {
            digits_val(f)
        } else {
            7
        }
    }

    /// Parse the frequency text into a number of days, always at least one.
    pub fn parse_frequency(&self) -> (r: u64)
        ensures
            r as int == self.spec_parse_frequency(),
            r >= 1,
    {
        let f = trim(self.frequency.as_str());
        let n = f.unicode_len();
        if n >= 1 && f.get_char(n - 1) == 'd' {
            let num = f.substring_char(0, n - 1);
            proof {
                assert(num@ =~= f@.drop_last());
                if all_digits(f@) {
                    assert(is_digit_char(f@[n - 1]));
                }
            }
            match crate::text::parse_u64_digits(num) {
                Some(v) => if v >= 1 {
                    v
                } else {
                    7
                },
                None => 7,
            }
        } else {
            match crate::text::parse_u64_digits(f) {
                Some(v) => if v >= 1 {
                    v
                } else {
                    7
                },
                None => 7,
            }
        }
    }
}


// ---------------------------------------------------------------------------
// Merging a document onto the schema
// ---------------------------------------------------------------------------

/// A text field of the schema: the document's string under the key, or the
/// default when the key is absent or holds another type.
pub open spec fn merge_str(
    d: Seq<SectionV>,
    sec: Seq<char>,
    key: Seq<char>,
    def: Seq<char>,
) -> Seq<char> {
    match lookup_spec(d, sec, key) {
        Some(ValueV::S(s)) => s,
        _ => def,
    }
}

/// A boolean field of the schema.
pub open spec fn merge_bool(d: Seq<SectionV>, sec: Seq<char>, key: Seq<char>, def: bool) -> bool {
    match lookup_spec(d, sec, key) {
        Some(ValueV::B(b)) => b,
        _ => def,
    }
}

/// An unsigned field of the schema: a negative integer counts as the wrong
/// type and takes the default.  A document integer is 64-bit signed, so the
/// value always fits.
pub open spec fn merge_u64(d: Seq<SectionV>, sec: Seq<char>, key: Seq<char>, def: u64) -> u64 {
    match lookup_spec(d, sec, key) {
        Some(ValueV::I(i)) => if 0 <= i < 0x8000_0000_0000_0000 {
            i as u64
        } else {
            def
        },
        _ => def,
    }
}

/// The configuration a document denotes before repair: each schema field from
/// the document when present with the right type, else its default.
pub open spec fn merge_spec(d: Seq<SectionV>) -> ConfigV {
    ConfigV {
        red: RedConfigV {
            token: merge_str(d, "red"@, "token"@, default_token_spec()),
            shards: merge_u64(d, "red"@, "shards"@, default_shards_spec()),
        },
        logging: LoggingConfigV {
            log_level: merge_str(d, "logging"@, "log_level"@, default_log_level_spec()),
            directory: merge_str(d, "logging"@, "directory"@, default_directory_spec()),
            extra_logs: merge_bool(d, "logging"@, "extra_logs"@, default_extra_logs_spec()),
        },
        logrotate: LogRotateConfigV {
            frequency: merge_str(d, "logrotate"@, "frequency"@, default_frequency_spec()),
            rotation_time: merge_str(
                d,
                "logrotate"@,
                "rotation_time"@,
                default_rotation_time_spec(),
            ),
        },
        debug: DebugConfigV {
            enable_debug: merge_bool(d, "debug"@, "enable_debug"@, default_enable_debug_spec()),
            debug_server_id: merge_str(
                d,
                "debug"@,
                "debug_server_id"@,
                default_debug_server_id_spec(),
            ),
        },
    }
}

fn merge_field_str(doc: &TomlDoc, sec: &str, key: &str, def: String) -> (r: String)
    ensures
        r@ == merge_str(doc@, sec@, key@, def@),
{
    match lookup(doc, sec, key) {
        Some(v) => match v {
            TomlValue::S(s) => s.clone(),
            _ => def,
        },
        None => def,
    }
}

fn merge_field_bool(doc: &TomlDoc, sec: &str, key: &str, def: bool) -> (r: bool)
    ensures
        r == merge_bool(doc@, sec@, key@, def),
{
    match lookup(doc, sec, key) {
        Some(v) => match v {
            TomlValue::B(b) => *b,
            _ => def,
        },
        None => def,
    }
}

fn merge_field_u64(doc: &TomlDoc, sec: &str, key: &str, def: u64) -> (r: u64)
    ensures
        r == merge_u64(doc@, sec@, key@, def),
{
    match lookup(doc, sec, key) {
        Some(v) => match v {
            TomlValue::I(i) => if *i >= 0 {
                *i as u64
            } else {
                def
            },
            _ => def,
        },
        None => def,
    }
}

/// Merge a parsed document onto the schema.
pub fn merge_document(doc: &TomlDoc) -> (r: Config)
    ensures
        r@ == merge_spec(doc@),
{
    let red = RedConfig {
        token: merge_field_str(doc, "red", "token", default_token()),
        shards: merge_field_u64(doc, "red", "shards", default_shards()),
    };
    let logging = LoggingConfig {
        log_level: merge_field_str(doc, "logging", "log_level", default_log_level()),
        directory: merge_field_str(doc, "logging", "directory", default_directory()),
        extra_logs: merge_field_bool(doc, "logging", "extra_logs", default_extra_logs()),
    };
    let logrotate = LogRotateConfig {
        frequency: merge_field_str(doc, "logrotate", "frequency", default_frequency()),
        rotation_time: merge_field_str(
            doc,
            "logrotate",
            "rotation_time",
            default_rotation_time(),
        ),
    };
    let debug = DebugConfig {
        enable_debug: merge_field_bool(doc, "debug", "enable_debug", default_enable_debug()),
        debug_server_id: merge_field_str(
            doc,
            "debug",
            "debug_server_id",
            default_debug_server_id(),
        ),
    };
    let r = Config { red, logging, logrotate, debug };
    proof {
        assert(r@ =~~= merge_spec(doc@));
    }
    r
}

// ---------------------------------------------------------------------------
// Canonical document
// ---------------------------------------------------------------------------

/// The canonical document of a configuration: the four known sections with
/// the nine known keys, in schema order, and nothing else.
pub open spec fn canonical_doc(c: ConfigV) -> Seq<SectionV> {
    seq![
        SectionV {
            name: "red"@,
            entries: seq![
                KvV { key: "token"@, value: ValueV::S(c.red.token) },
                KvV { key: "shards"@, value: ValueV::I(c.red.shards as int) },
            ],
        },
        SectionV {
            name: "logging"@,
            entries: seq![
                KvV { key: "log_level"@, value: ValueV::S(c.logging.log_level) },
                KvV { key: "directory"@, value: ValueV::S(c.logging.directory) },
                KvV { key: "extra_logs"@, value: ValueV::B(c.logging.extra_logs) },
            ],
        },
        SectionV {
            name: "logrotate"@,
            entries: seq![
                KvV { key: "frequency"@, value: ValueV::S(c.logrotate.frequency) },
                KvV { key: "rotation_time"@, value: ValueV::S(c.logrotate.rotation_time) },
            ],
        },
        SectionV {
            name: "debug"@,
            entries: seq![
                KvV { key: "enable_debug"@, value: ValueV::B(c.debug.enable_debug) },
                KvV { key: "debug_server_id"@, value: ValueV::S(c.debug.debug_server_id) },
            ],
        },
    ]
}

/// Canonical text of a configuration.
pub open spec fn canonical_text(c: ConfigV) -> Seq<char> {
    render_doc_spec(canonical_doc(c))
}

impl Config {
    /// Build the canonical document of this configuration.  The shard count
    /// must fit a document integer, which is 64-bit signed.
    pub fn to_document(&self) -> (d: TomlDoc)
        requires
            self.red.shards < 0x8000_0000_0000_0000,
        ensures
            d@ == canonical_doc(self@),
    {
        let mut red_entries: Vec<TomlKv> = Vec::new();
        red_entries.push(TomlKv {
            key: "token".to_owned(),
            value: TomlValue::S(self.red.token.clone()),
        });
        red_entries.push(TomlKv {
            key: "shards".to_owned(),
            value: TomlValue::I(self.red.shards as i64),
        });
        let mut logging_entries: Vec<TomlKv> = Vec::new();
        logging_entries.push(TomlKv {
            key: "log_level".to_owned(),
            value: TomlValue::S(self.logging.log_level.clone()),
        });
        logging_entries.push(TomlKv {
            key: "directory".to_owned(),
            value: TomlValue::S(self.logging.directory.clone()),
        });
        logging_entries.push(TomlKv {
            key: "extra_logs".to_owned(),
            value: TomlValue::B(self.logging.extra_logs),
        });
        let mut logrotate_entries: Vec<TomlKv> = Vec::new();
        logrotate_entries.push(TomlKv {
            key: "frequency".to_owned(),
            value: TomlValue::S(self.logrotate.frequency.clone()),
        });
        logrotate_entries.push(TomlKv {
            key: "rotation_time".to_owned(),
            value: TomlValue::S(self.logrotate.rotation_time.clone()),
        });
        let mut debug_entries: Vec<TomlKv> = Vec::new();
        debug_entries.push(TomlKv {
            key: "enable_debug".to_owned(),
            value: TomlValue::B(self.debug.enable_debug),
        });
        debug_entries.push(TomlKv {
            key: "debug_server_id".to_owned(),
            value: TomlValue::S(self.debug.debug_server_id.clone()),
        });
        let mut sections: Vec<TomlSection> = Vec::new();
        sections.push(TomlSection { name: "red".to_owned(), entries: red_entries });
        sections.push(TomlSection { name: "logging".to_owned(), entries: logging_entries });
        sections.push(TomlSection { name: "logrotate".to_owned(), entries: logrotate_entries });
        sections.push(TomlSection { name: "debug".to_owned(), entries: debug_entries });
        let d = TomlDoc { sections };
        proof {
            assert(d@ =~~= canonical_doc(self@));
        }
        d
    }

    /// Render this configuration as canonical text.  The shard count must
    /// fit a document integer, which is 64-bit signed.
    pub fn to_canonical_string(&self) -> (r: String)
        requires
            self.red.shards < 0x8000_0000_0000_0000,
        ensures
            r@ == canonical_text(self@),
    {
        let d = self.to_document();
        render_document(&d)
    }
}

// ---------------------------------------------------------------------------
// The load pipeline
// ---------------------------------------------------------------------------

/// The document a text denotes: its parse, or the empty document when the
/// text is malformed.
pub open spec fn parsed_model(s: Seq<char>) -> Seq<SectionV> {
    match parse_doc_spec(s) {
        Some(d) => d,
        None => seq![],
    }
}

/// The configuration a text loads to: parse, merge onto the schema, repair.
pub open spec fn load_model(s: Seq<char>) -> ConfigV {
    repair_spec(merge_spec(parsed_model(s)))
}

/// The warning recorded when the document text does not parse.
pub open spec fn parse_warning() -> Seq<char> {
    "Failed to parse the configuration document. Using defaults for invalid fields."@
}

/// The warnings one load emits, in order.
pub open spec fn load_warnings(s: Seq<char>) -> Seq<Seq<char>> {
    let pw: Seq<Seq<char>> = if parse_doc_spec(s) is Some {
        seq![]
    } else {
        seq![parse_warning()]
    };
    pw + repair_warnings(merge_spec(parsed_model(s)))
}

/// What one load of a document text produces: the frozen value, the canonical
/// text to write back, and the warnings to report.
pub struct LoadOutcome {
    pub config: Config,
    pub canonical: String,
    pub warnings: Vec<String>,
}

impl Config {
    /// Load a configuration from document text: parse it (defaults on a parse
    /// failure), merge it onto the schema, repair invalid fields, and render
    /// the canonical text that replaces the document on disk.
    pub fn load_from_text(text: &str) -> (r: LoadOutcome)
        ensures
            r.config@ == load_model(text@),
            r.canonical@ == canonical_text(load_model(text@)),
            r.warnings@.len() == load_warnings(text@).len(),
            forall|i: int|
                0 <= i < r.warnings@.len() ==> (#[trigger] r.warnings@[i])@ == load_warnings(
                    text@,
                )[i],
    {
        let mut warnings: Vec<String> = Vec::new();
        let doc = match parse_document(text) {
            Some(d) => d,
            None => {
                warnings.push(
                    "Failed to parse the configuration document. Using defaults for invalid fields.".to_owned(),
                );
                let empty = TomlDoc { sections: Vec::new() };
                proof {
                    assert(empty@ =~= parsed_model(text@));
                }
                empty
            },
        };
        let mut config = merge_document(&doc);
        let mut repair = config.validate_mut();
        let ghost pre_warnings = warnings@;
        let mut j: usize = 0;
        let ghost repair_views = Seq::new(repair@.len(), |i: int| repair@[i]@);
        while j < repair.len()
            invariant
                j <= repair@.len(),
                repair_views.len() == repair@.len(),
                forall|i: int| j <= i < repair@.len() ==> (#[trigger] repair@[i])@ == repair_views[i],
                warnings@.len() == pre_warnings.len() + j,
                forall|i: int|
                    0 <= i < pre_warnings.len() ==> #[trigger] warnings@[i] == pre_warnings[i],
                forall|i: int|
                    0 <= i < j ==> (#[trigger] warnings@[pre_warnings.len() + i])@
                        == repair_views[i],
            decreases repair@.len() - j,
        {
            let w = repair[j].clone();
            warnings.push(w);
            j = j + 1;
        }
        proof {
            assert(config@ == load_model(text@));
        }
        let canonical = config.to_canonical_string();
        proof {
            let lw = load_warnings(text@);
            let rw = repair_warnings(merge_spec(parsed_model(text@)));
            assert(warnings@.len() == lw.len());
            assert forall|i: int| 0 <= i < warnings@.len() implies (#[trigger] warnings@[i])@
                == lw[i] by {
                if i < pre_warnings.len() {
                    assert(warnings@[i] == pre_warnings[i]);
                    assert(lw[i] == parse_warning());
                } else {
                    let k = i - pre_warnings.len();
                    assert(warnings@[pre_warnings.len() + k]@ == repair_views[k]);
                    assert(lw[i] == rw[k]);
                }
            }
        }
        LoadOutcome { config, canonical, warnings }
    }
}


// ---------------------------------------------------------------------------
// Laws of the store
// ---------------------------------------------------------------------------

/// Every default passes its field's validator.
pub proof fn lemma_defaults_valid()
    ensures
        spec_valid_log_level(default_log_level_spec()),
        spec_valid_frequency(default_frequency_spec()),
        spec_valid_rotation_time(default_rotation_time_spec()),
        spec_valid_numeric(default_debug_server_id_spec()),
{
    reveal_strlit("info");
    reveal_strlit("7d");
    reveal_strlit("00:00");
    reveal_strlit("000000000000000000");
    let winfo = seq!['i', 'n', 'f', 'o'];
    assert("info"@ =~= winfo);
    assert(ascii_lower_spec(winfo) =~= winfo);
    assert(ascii_lower_spec("info"@) == "info"@);
    let wf = seq!['7', 'd'];
    assert("7d"@ =~= wf);
    crate::text::lemma_trim_noop(wf);
    assert(wf.drop_last() =~= seq!['7']);
    assert(all_digits(seq!['7']));
    assert(spec_valid_frequency("7d"@));
    let wr = seq!['0', '0', ':', '0', '0'];
    assert("00:00"@ =~= wr);
    assert(spec_valid_rotation_time("00:00"@));
    let wz = seq![
        '0', '0', '0', '0', '0', '0', '0', '0', '0', '0', '0', '0', '0', '0', '0', '0', '0', '0',
    ];
    assert("000000000000000000"@ =~= wz);
    assert(all_digits(wz));
    assert(spec_valid_numeric("000000000000000000"@));
}

/// The repair pass is idempotent: a repaired configuration passes untouched.
pub proof fn lemma_repair_idempotent(c: ConfigV)
    ensures
        repair_spec(repair_spec(c)) == repair_spec(c),
{
    lemma_defaults_valid();
    assert(repair_spec(repair_spec(c)) =~~= repair_spec(c));
}

/// The canonical document holds each schema field under its key.
pub proof fn lemma_canonical_lookup(c: ConfigV)
    ensures
        lookup_spec(canonical_doc(c), "red"@, "token"@) == Some(ValueV::S(c.red.token)),
        lookup_spec(canonical_doc(c), "red"@, "shards"@) == Some(
            ValueV::I(c.red.shards as int),
        ),
        lookup_spec(canonical_doc(c), "logging"@, "log_level"@) == Some(
            ValueV::S(c.logging.log_level),
        ),
        lookup_spec(canonical_doc(c), "logging"@, "directory"@) == Some(
            ValueV::S(c.logging.directory),
        ),
        lookup_spec(canonical_doc(c), "logging"@, "extra_logs"@) == Some(
            ValueV::B(c.logging.extra_logs),
        ),
        lookup_spec(canonical_doc(c), "logrotate"@, "frequency"@) == Some(
            ValueV::S(c.logrotate.frequency),
        ),
        lookup_spec(canonical_doc(c), "logrotate"@, "rotation_time"@) == Some(
            ValueV::S(c.logrotate.rotation_time),
        ),
        lookup_spec(canonical_doc(c), "debug"@, "enable_debug"@) == Some(
            ValueV::B(c.debug.enable_debug),
        ),
        lookup_spec(canonical_doc(c), "debug"@, "debug_server_id"@) == Some(
            ValueV::S(c.debug.debug_server_id),
        ),
{
    let d = canonical_doc(c);
    reveal_strlit("red");
    reveal_strlit("logging");
    reveal_strlit("logrotate");
    reveal_strlit("debug");
    reveal_strlit("token");
    reveal_strlit("shards");
    reveal_strlit("log_level");
    reveal_strlit("directory");
    reveal_strlit("extra_logs");
    reveal_strlit("frequency");
    reveal_strlit("rotation_time");
    reveal_strlit("enable_debug");
    reveal_strlit("debug_server_id");
    assert("red"@.len() == 3 && "logging"@.len() == 7 && "logrotate"@.len() == 9 && "debug"@.len()
        == 5);
    assert("token"@.len() == 5 && "shards"@.len() == 6);
    assert("log_level"@.len() == 9 && "directory"@.len() == 9 && "extra_logs"@.len() == 10);
    assert("log_level"@[0] == 'l' && "directory"@[0] == 'd');
    assert("frequency"@.len() == 9 && "rotation_time"@.len() == 13);
    assert("enable_debug"@.len() == 12 && "debug_server_id"@.len() == 15);
    crate::toml_doc::lemma_find_section_witness(d, "red"@, 0);
    crate::toml_doc::lemma_find_section_witness(d, "logging"@, 1);
    crate::toml_doc::lemma_find_section_witness(d, "logrotate"@, 2);
    crate::toml_doc::lemma_find_section_witness(d, "debug"@, 3);
    crate::toml_doc::lemma_find_kv_witness(d[0].entries, "token"@, 0);
    crate::toml_doc::lemma_find_kv_witness(d[0].entries, "shards"@, 1);
    crate::toml_doc::lemma_find_kv_witness(d[1].entries, "log_level"@, 0);
    crate::toml_doc::lemma_find_kv_witness(d[1].entries, "directory"@, 1);
    crate::toml_doc::lemma_find_kv_witness(d[1].entries, "extra_logs"@, 2);
    crate::toml_doc::lemma_find_kv_witness(d[2].entries, "frequency"@, 0);
    crate::toml_doc::lemma_find_kv_witness(d[2].entries, "rotation_time"@, 1);
    crate::toml_doc::lemma_find_kv_witness(d[3].entries, "enable_debug"@, 0);
    crate::toml_doc::lemma_find_kv_witness(d[3].entries, "debug_server_id"@, 1);
}

/// A known schema field: one of the four sections with one of its keys.
pub open spec fn known_field(sec: Seq<char>, key: Seq<char>) -> bool {
    (sec == "red"@ && (key == "token"@ || key == "shards"@)) || (sec == "logging"@ && (key
        == "log_level"@ || key == "directory"@ || key == "extra_logs"@)) || (sec == "logrotate"@
        && (key == "frequency"@ || key == "rotation_time"@)) || (sec == "debug"@ && (key
        == "enable_debug"@ || key == "debug_server_id"@))
}

/// Nothing unknown survives a rewrite: whatever the canonical document holds
/// is a known schema field.  In particular an unknown key of the original
/// document is gone after one load.
pub proof fn lemma_canonical_keys_known(c: ConfigV, sec: Seq<char>, key: Seq<char>)
    ensures
        lookup_spec(canonical_doc(c), sec, key) is Some ==> known_field(sec, key),
{
    let d = canonical_doc(c);
    crate::toml_doc::lemma_find_section_props(d, sec);
    match find_section(d, sec) {
        Some(i) => {
            assert(0 <= i < 4);
            assert(d[i].name == sec);
            crate::toml_doc::lemma_find_kv_props(d[i].entries, key);
            match find_kv(d[i].entries, key) {
                Some(j) => {
                    assert(d[i].entries[j].key == key);
                },
                None => {},
            }
        },
        None => {},
    }
}

/// A field missing from the on-disk document comes out at its declared
/// default, and the rewritten document carries that field with the default.
pub proof fn lemma_missing_field_defaults(text: Seq<char>)
    ensures
        ({
            let d = parsed_model(text);
            let c = load_model(text);
            &&& lookup_spec(d, "red"@, "token"@) is None ==> c.red.token == default_token_spec()
                && lookup_spec(canonical_doc(c), "red"@, "token"@) == Some(
                ValueV::S(default_token_spec()),
            )
            &&& lookup_spec(d, "red"@, "shards"@) is None ==> c.red.shards
                == default_shards_spec() && lookup_spec(canonical_doc(c), "red"@, "shards"@)
                == Some(ValueV::I(default_shards_spec() as int))
            &&& lookup_spec(d, "logging"@, "log_level"@) is None ==> c.logging.log_level
                == default_log_level_spec() && lookup_spec(
                canonical_doc(c),
                "logging"@,
                "log_level"@,
            ) == Some(ValueV::S(default_log_level_spec()))
            &&& lookup_spec(d, "logging"@, "directory"@) is None ==> c.logging.directory
                == default_directory_spec() && lookup_spec(
                canonical_doc(c),
                "logging"@,
                "directory"@,
            ) == Some(ValueV::S(default_directory_spec()))
            &&& lookup_spec(d, "logging"@, "extra_logs"@) is None ==> c.logging.extra_logs
                == default_extra_logs_spec() && lookup_spec(
                canonical_doc(c),
                "logging"@,
                "extra_logs"@,
            ) == Some(ValueV::B(default_extra_logs_spec()))
            &&& lookup_spec(d, "logrotate"@, "frequency"@) is None ==> c.logrotate.frequency
                == default_frequency_spec() && lookup_spec(
                canonical_doc(c),
                "logrotate"@,
                "frequency"@,
            ) == Some(ValueV::S(default_frequency_spec()))
            &&& lookup_spec(d, "logrotate"@, "rotation_time"@) is None
                ==> c.logrotate.rotation_time == default_rotation_time_spec() && lookup_spec(
                canonical_doc(c),
                "logrotate"@,
                "rotation_time"@,
            ) == Some(ValueV::S(default_rotation_time_spec()))
            &&& lookup_spec(d, "debug"@, "enable_debug"@) is None ==> c.debug.enable_debug
                == default_enable_debug_spec() && lookup_spec(
                canonical_doc(c),
                "debug"@,
                "enable_debug"@,
            ) == Some(ValueV::B(default_enable_debug_spec()))
            &&& lookup_spec(d, "debug"@, "debug_server_id"@) is None ==> c.debug.debug_server_id
                == default_debug_server_id_spec() && lookup_spec(
                canonical_doc(c),
                "debug"@,
                "debug_server_id"@,
            ) == Some(ValueV::S(default_debug_server_id_spec()))
        }),
{
    lemma_defaults_valid();
    lemma_canonical_lookup(load_model(text));
}


/// The text fields of a configuration are clean: free of quotes, backslashes
/// and line breaks, so that the canonical text parses back.
pub open spec fn config_strings_clean(c: ConfigV) -> bool {
    string_content_clean(c.red.token) && string_content_clean(c.logging.log_level)
        && string_content_clean(c.logging.directory) && string_content_clean(c.logrotate.frequency)
        && string_content_clean(c.logrotate.rotation_time) && string_content_clean(
        c.debug.debug_server_id,
    )
}

/// Every default text field is clean.
pub proof fn lemma_default_strings_clean()
    ensures
        config_strings_clean(default_config_spec()),
{
    reveal_strlit("placeholder_token");
    reveal_strlit("info");
    reveal_strlit("logs");
    reveal_strlit("7d");
    reveal_strlit("00:00");
    reveal_strlit("000000000000000000");
    assert("placeholder_token"@ =~= seq![
        'p', 'l', 'a', 'c', 'e', 'h', 'o', 'l', 'd', 'e', 'r', '_', 't', 'o', 'k', 'e', 'n',
    ]);
    assert(string_content_clean("placeholder_token"@));
    assert("info"@ =~= seq!['i', 'n', 'f', 'o']);
    assert(string_content_clean("info"@));
    assert("logs"@ =~= seq!['l', 'o', 'g', 's']);
    assert(string_content_clean("logs"@));
    assert("7d"@ =~= seq!['7', 'd']);
    assert(string_content_clean("7d"@));
    assert("00:00"@ =~= seq!['0', '0', ':', '0', '0']);
    assert(string_content_clean("00:00"@));
    assert("000000000000000000"@ =~= seq![
        '0', '0', '0', '0', '0', '0', '0', '0', '0', '0', '0', '0', '0', '0', '0', '0', '0', '0',
    ]);
    assert(string_content_clean("000000000000000000"@));
}

/// The canonical document of a clean configuration is itself clean, so its
/// rendering parses back.
pub proof fn lemma_canonical_clean(c: ConfigV)
    requires
        config_strings_clean(c),
        c.red.shards < 0x8000_0000_0000_0000,
    ensures
        clean_doc(canonical_doc(c)),
{
    reveal_strlit("red");
    reveal_strlit("logging");
    reveal_strlit("logrotate");
    reveal_strlit("debug");
    reveal_strlit("token");
    reveal_strlit("shards");
    reveal_strlit("log_level");
    reveal_strlit("directory");
    reveal_strlit("extra_logs");
    reveal_strlit("frequency");
    reveal_strlit("rotation_time");
    reveal_strlit("enable_debug");
    reveal_strlit("debug_server_id");
    assert("red"@ =~= seq!['r', 'e', 'd']);
    assert("logging"@ =~= seq!['l', 'o', 'g', 'g', 'i', 'n', 'g']);
    assert("logrotate"@ =~= seq!['l', 'o', 'g', 'r', 'o', 't', 'a', 't', 'e']);
    assert("debug"@ =~= seq!['d', 'e', 'b', 'u', 'g']);
    assert("token"@ =~= seq!['t', 'o', 'k', 'e', 'n']);
    assert("shards"@ =~= seq!['s', 'h', 'a', 'r', 'd', 's']);
    assert("log_level"@ =~= seq!['l', 'o', 'g', '_', 'l', 'e', 'v', 'e', 'l']);
    assert("directory"@ =~= seq!['d', 'i', 'r', 'e', 'c', 't', 'o', 'r', 'y']);
    assert("extra_logs"@ =~= seq!['e', 'x', 't', 'r', 'a', '_', 'l', 'o', 'g', 's']);
    assert("frequency"@ =~= seq!['f', 'r', 'e', 'q', 'u', 'e', 'n', 'c', 'y']);
    assert("rotation_time"@ =~= seq![
        'r', 'o', 't', 'a', 't', 'i', 'o', 'n', '_', 't', 'i', 'm', 'e',
    ]);
    assert("enable_debug"@ =~= seq!['e', 'n', 'a', 'b', 'l', 'e', '_', 'd', 'e', 'b', 'u', 'g']);
    assert("debug_server_id"@ =~= seq![
        'd', 'e', 'b', 'u', 'g', '_', 's', 'e', 'r', 'v', 'e', 'r', '_', 'i', 'd',
    ]);
    assert(clean_name("red"@));
    assert(clean_name("logging"@));
    assert(clean_name("logrotate"@));
    assert(clean_name("debug"@));
    assert(clean_key("token"@));
    assert(clean_key("shards"@));
    assert(clean_key("log_level"@));
    assert(clean_key("directory"@));
    assert(clean_key("extra_logs"@));
    assert(clean_key("frequency"@));
    assert(clean_key("rotation_time"@));
    assert(clean_key("enable_debug"@));
    assert(clean_key("debug_server_id"@));
    let d = canonical_doc(c);
    assert(clean_section(d[0]));
    assert(clean_section(d[1]));
    assert(clean_section(d[2]));
    assert(clean_section(d[3]));
    assert forall|i: int| 0 <= i < d.len() implies clean_section(#[trigger] d[i]) by {
        if i == 0 {
        } else if i == 1 {
        } else if i == 2 {
        } else {
            assert(i == 3);
        }
    }
}

/// Merging the canonical document back gives the configuration unchanged.
pub proof fn lemma_merge_canonical(c: ConfigV)
    requires
        c.red.shards < 0x8000_0000_0000_0000,
    ensures
        merge_spec(canonical_doc(c)) == c,
{
    lemma_canonical_lookup(c);
    assert(merge_spec(canonical_doc(c)) =~~= c);
}

/// Round trip: loading the canonical text of a clean, repaired configuration
/// gives exactly that configuration back.
pub proof fn lemma_load_canonical_round_trip(c: ConfigV)
    requires
        config_strings_clean(c),
        c.red.shards < 0x8000_0000_0000_0000,
        repair_spec(c) == c,
    ensures
        parse_doc_spec(canonical_text(c)) == Some(canonical_doc(c)),
        load_model(canonical_text(c)) == c,
{
    lemma_canonical_clean(c);
    crate::toml_doc::lemma_parse_render_doc(canonical_doc(c));
    lemma_merge_canonical(c);
}

/// Round trip at the default configuration: parsing the serialised defaults
/// yields the defaults.
pub proof fn lemma_default_round_trip()
    ensures
        load_model(canonical_text(default_config_spec())) == default_config_spec(),
{
    lemma_default_strings_clean();
    lemma_defaults_valid();
    assert(repair_spec(default_config_spec()) =~~= default_config_spec());
    lemma_load_canonical_round_trip(default_config_spec());
}

/// What a load produces is clean and already repaired, so a further load of
/// its canonical text can change nothing.
pub proof fn lemma_load_model_ready(text: Seq<char>)
    ensures
        config_strings_clean(load_model(text)),
        load_model(text).red.shards < 0x8000_0000_0000_0000,
        repair_spec(load_model(text)) == load_model(text),
{
    let d = parsed_model(text);
    crate::toml_doc::lemma_parse_doc_values_clean(text);
    assert(doc_values_clean(d)) by {
        if parse_doc_spec(text) is None {
            assert(d =~= Seq::<SectionV>::empty());
        }
    }
    crate::toml_doc::lemma_lookup_value_clean(d, "red"@, "token"@);
    crate::toml_doc::lemma_lookup_value_clean(d, "logging"@, "log_level"@);
    crate::toml_doc::lemma_lookup_value_clean(d, "logging"@, "directory"@);
    crate::toml_doc::lemma_lookup_value_clean(d, "logrotate"@, "frequency"@);
    crate::toml_doc::lemma_lookup_value_clean(d, "logrotate"@, "rotation_time"@);
    crate::toml_doc::lemma_lookup_value_clean(d, "debug"@, "debug_server_id"@);
    lemma_default_strings_clean();
    lemma_repair_idempotent(merge_spec(d));
}

/// Idempotence: loading what a load wrote back leaves both the in-memory
/// value and the canonical on-disk text unchanged.
pub proof fn lemma_load_idempotent(text: Seq<char>)
    ensures
        load_model(canonical_text(load_model(text))) == load_model(text),
        canonical_text(load_model(canonical_text(load_model(text)))) == canonical_text(
            load_model(text),
        ),
{
    lemma_load_model_ready(text);
    lemma_load_canonical_round_trip(load_model(text));
}

} // verus!
