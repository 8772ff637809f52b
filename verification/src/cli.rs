//! Settings from the command line and from repository-local configuration.

use vstd::prelude::*;
use vstd::string::StringExecFns;

use crate::bytes;
use crate::duration;
use crate::git::repo::CommitMode;
use crate::number;
use crate::order;
use crate::path::RepoPath;
use crate::terminal::progress;
use crate::terminal::progress::Elapsed;
use crate::text;

verus! {

/// Whether and how strongly the model should use explicit thinking.
#[derive(Debug, Clone, Copy, PartialEq, Eq, Structural)]
pub enum Think {
    /// No thinking.
    Off,
    /// Thinking as the model does by default.
    On,
    /// Little thinking.
    Low,
    /// Much thinking.
    High,
}

/// What a thinking level is called.
pub open spec fn think_name(think: Think) -> Seq<char> {
    match think {
        Think::Off => "off"@,
        Think::On => "on"@,
        Think::Low => "low"@,
        Think::High => "high"@,
    }
}

/// A character, in lower case where it is an ASCII letter.
pub open spec fn lower(character: char) -> char {
    if 'A' <= character <= 'Z' {
        (character as u32 + 32) as char
    } else {
        character
    }
}

/// Whether two texts are equal but for the case of ASCII letters.
pub open spec fn same_ignoring_case(left: Seq<char>, right: Seq<char>) -> bool {
    left.len() == right.len() && forall|i: int|
        0 <= i < left.len() ==> lower(#[trigger] left[i]) == lower(right[i])
}

/// A character, in lower case where it is an ASCII letter.
fn lowercase(character: char) -> (result: char)
    ensures
        result == lower(character),
{
    if 'A' <= character && character <= 'Z' {
        ((character as u8) + 32) as char
    } else {
        character
    }
}

/// Compare texts but for the case of ASCII letters.
fn is_same_ignoring_case(left: &str, right: &str) -> (result: bool)
    ensures
        result == same_ignoring_case(left@, right@),
{
    let a = text::chars_of(left);
    let b = text::chars_of(right);
    if a.len() != b.len() {
        return false;
    }
    for i in 0..a.len()
        invariant
            a@ == left@,
            b@ == right@,
            a@.len() == b@.len(),
            forall|j: int| 0 <= j < i ==> lower(#[trigger] left@[j]) == lower(right@[j]),
    {
        if lowercase(a[i]) != lowercase(b[i]) {
            assert(lower(left@[i as int]) != lower(right@[i as int]));
            return false;
        }
    }
    true
}

/// The thinking level that a text names.
pub open spec fn think_named(text: Seq<char>) -> Option<Think> {
    if same_ignoring_case(text, "off"@) {
        Some(Think::Off)
    } else if same_ignoring_case(text, "on"@) {
        Some(Think::On)
    } else if same_ignoring_case(text, "low"@) {
        Some(Think::Low)
    } else if same_ignoring_case(text, "high"@) {
        Some(Think::High)
    } else {
        None
    }
}

impl Think {
    /// Whether the model thinks at all.
    pub fn is_on(self) -> (result: bool)
        ensures
            result == (self != Think::Off),
    {
        match self {
            Think::Off => false,
            _ => true,
        }
    }

    /// What the level is called.
    pub fn name(self) -> (name: &'static str)
        ensures
            name@ == think_name(self),
    {
        match self {
            Think::Off => "off",
            Think::On => "on",
            Think::Low => "low",
            Think::High => "high",
        }
    }

    /// The level that a text names, whatever its case.
    pub fn from_name(text: &str) -> (result: Option<Think>)
        ensures
            result == think_named(text@),
    {
        if is_same_ignoring_case(text, "off") {
            Some(Think::Off)
        } else if is_same_ignoring_case(text, "on") {
            Some(Think::On)
        } else if is_same_ignoring_case(text, "low") {
            Some(Think::Low)
        } else if is_same_ignoring_case(text, "high") {
            Some(Think::High)
        } else {
            None
        }
    }
}

/// The name of each thinking level names it.
pub proof fn lemma_think_names_are_read_back(think: Think)
    ensures
        think_named(think_name(think)) == Some(think),
{
    reveal_strlit("off");
    reveal_strlit("on");
    reveal_strlit("low");
    reveal_strlit("high");
    assert("off"@ =~= seq!['o', 'f', 'f']);
    assert("low"@ =~= seq!['l', 'o', 'w']);
    assert(lower("off"@[0]) != lower("low"@[0]));
}

/// A text without underscores.
pub open spec fn without_underscores(text: Seq<char>) -> Seq<char>
    decreases text.len(),
{
    if text.len() == 0 {
        seq![]
    } else {
        let before = without_underscores(text.drop_last());
        if text.last() == '_' {
            before
        } else {
            before.push(text.last())
        }
    }
}

/// The factor that the last character of a token count stands for.
pub open spec fn suffix_factor(text: Seq<char>) -> nat {
    if text.len() == 0 {
        1
    } else if text.last() == 'k' || text.last() == 'K' {
        1024
    } else if text.last() == 'm' || text.last() == 'M' {
        1_048_576
    } else {
        1
    }
}

/// A token count without the character that stands for a factor.
pub open spec fn without_suffix(text: Seq<char>) -> Seq<char> {
    if suffix_factor(text) == 1 {
        text
    } else {
        text.drop_last()
    }
}

/// Why a text is no token count.
#[derive(Debug, Clone, PartialEq, Eq)]
pub enum TokenCountError {
    /// It is no number.
    NotANumber {
        /// The text without underscores.
        value: String,
    },
    /// It is too large.
    TooLarge {
        /// The text without underscores.
        value: String,
    },
    /// It is zero.
    Zero,
}

/// What an error is reported as.
pub open spec fn token_count_error_text(error: TokenCountError) -> Seq<char> {
    match error {
        TokenCountError::NotANumber { value } =>
            "expected a positive token count such as `64k`, got `"@ + value@ + "`"@,
        TokenCountError::TooLarge { value } => "token count `"@ + value@
            + "` exceeds the supported range"@,
        TokenCountError::Zero => "token count must be positive"@,
    }
}

impl TokenCountError {
    /// What the error is reported as.
    pub fn message(&self) -> (message: String)
        ensures
            message@ == token_count_error_text(*self),
    {
        match self {
            TokenCountError::NotANumber { value } => {
                let mut message =
                    "expected a positive token count such as `64k`, got `".to_owned();
                message.append(value);
                message.append("`");
                message
            },
            TokenCountError::TooLarge { value } => {
                let mut message = "token count `".to_owned();
                message.append(value);
                message.append("` exceeds the supported range");
                message
            },
            TokenCountError::Zero => "token count must be positive".to_owned(),
        }
    }
}

/// Parse a token count with optional `k` or `m` binary suffixes.
pub fn parse_token_count(value: &str) -> (result: Result<u32, TokenCountError>)
    ensures
        ({
            let text = without_underscores(value@);
            let number = number::number(without_suffix(text), u32::MAX as nat);
            let factor = suffix_factor(text);
            match result {
                Ok(tokens) => number is Some && tokens == number->0 * factor && tokens > 0,
                Err(TokenCountError::NotANumber { value }) => value@ == text && number is None,
                Err(TokenCountError::TooLarge { value }) => value@ == text && number is Some
                    && number->0 * factor > u32::MAX,
                Err(TokenCountError::Zero) => number == Some(0nat),
            }
        }),
{
    let chars = text::chars_of(value);
    let mut kept: Vec<char> = Vec::new();
    assert(kept@ =~= without_underscores(value@.take(0)));
    for i in 0..chars.len()
        invariant
            chars@ == value@,
            kept@ == without_underscores(value@.take(i as int)),
    {
        assert(value@.take(i + 1).drop_last() =~= value@.take(i as int));
        assert(value@.take(i + 1).last() == chars@[i as int]);
        if chars[i] != '_' {
            kept.push(chars[i]);
        }
    }
    assert(value@.take(value@.len() as int) =~= value@);
    let text = text::text_between(&kept, 0, kept.len());
    assert(text@ =~= without_underscores(value@));
    let mut factor: u32 = 1;
    let mut end: usize = kept.len();
    if kept.len() > 0 {
        let last = kept[kept.len() - 1];
        if last == 'k' || last == 'K' {
            factor = 1024;
            end = kept.len() - 1;
        } else if last == 'm' || last == 'M' {
            factor = 1_048_576;
            end = kept.len() - 1;
        }
    }
    let digits = text::text_between(&kept, 0, end);
    assert(digits@ =~= without_suffix(text@));
    let count = match number::parse_number(&digits, u32::MAX as u64) {
        Some(count) => count,
        None => return Err(TokenCountError::NotANumber { value: text }),
    };
    assert(count * factor <= u32::MAX * 1_048_576) by (nonlinear_arith)
        requires
            count <= u32::MAX,
            factor <= 1_048_576,
    ;
    let tokens = count * factor as u64;
    if tokens > u32::MAX as u64 {
        return Err(TokenCountError::TooLarge { value: text });
    }
    if tokens == 0 {
        assert(count == 0) by (nonlinear_arith)
            requires
                count * factor == 0,
                factor >= 1,
        ;
        return Err(TokenCountError::Zero);
    }
    Ok(tokens as u32)
}

/// Whether bits are those of a finite, non-negative number in the 32-bit binary floating-point
/// format; negative zero counts as zero.
pub open spec fn is_finite_and_non_negative(bits: u32) -> bool {
    bits < 0x7f80_0000 || bits == 0x8000_0000
}

/// Whether a sampling temperature, given by its bits, is one that is supported.
pub fn is_valid_temperature(bits: u32) -> (result: bool)
    ensures
        result == is_finite_and_non_negative(bits),
{
    bits < 0x7f80_0000 || bits == 0x8000_0000
}

/// The [`CommitMode`] derived from the argument `--amend`.
pub fn commit_mode(amend: bool) -> (mode: CommitMode)
    ensures
        mode == if amend {
            CommitMode::Amend
        } else {
            CommitMode::Normal
        },
{
    if amend {
        CommitMode::Amend
    } else {
        CommitMode::Normal
    }
}

/// Why a text is no integer.
#[derive(Debug, Clone, Copy, PartialEq, Eq, Structural)]
pub enum IntegerError {
    /// It is empty.
    Empty,
    /// It holds something else than a sign and digits.
    InvalidDigit,
    /// It is too large.
    TooLarge,
    /// It is too small.
    TooSmall,
}

/// What an error is reported as.
pub open spec fn integer_error_text(error: IntegerError) -> Seq<char> {
    match error {
        IntegerError::Empty => "cannot parse integer from empty string"@,
        IntegerError::InvalidDigit => "invalid digit found in string"@,
        IntegerError::TooLarge => "number too large to fit in target type"@,
        IntegerError::TooSmall => "number too small to fit in target type"@,
    }
}

impl IntegerError {
    /// What the error is reported as.
    pub fn message(&self) -> (message: &'static str)
        ensures
            message@ == integer_error_text(*self),
    {
        match self {
            IntegerError::Empty => "cannot parse integer from empty string",
            IntegerError::InvalidDigit => "invalid digit found in string",
            IntegerError::TooLarge => "number too large to fit in target type",
            IntegerError::TooSmall => "number too small to fit in target type",
        }
    }
}

/// Whether a text starts with a minus sign.
pub open spec fn is_negative(text: Seq<char>) -> bool {
    text.len() > 0 && text[0] == '-'
}

/// A text without one leading sign.
pub open spec fn without_sign(text: Seq<char>) -> Seq<char> {
    if text.len() > 0 && (text[0] == '-' || text[0] == '+') {
        text.skip(1)
    } else {
        text
    }
}

/// The number of leading digits of a text.
pub open spec fn leading_digits(text: Seq<char>) -> nat
    decreases text.len(),
{
    if text.len() == 0 || !number::is_digit(text[0]) {
        0
    } else {
        1 + leading_digits(text.skip(1))
    }
}

/// The largest magnitude of a 64-bit integer with this sign.
pub open spec fn magnitude_limit(negative: bool) -> nat {
    if negative {
        0x8000_0000_0000_0000
    } else {
        0x7fff_ffff_ffff_ffff
    }
}

/// The 64-bit integer that a text holds: a sign or none, and digits; the first fault counts.
pub open spec fn integer(text: Seq<char>) -> Result<int, IntegerError> {
    let digits = without_sign(text);
    let count = leading_digits(digits);
    let magnitude = number::digits_value(digits.take(count as int));
    if text.len() == 0 {
        Err(IntegerError::Empty)
    } else if magnitude > magnitude_limit(is_negative(text)) {
        if is_negative(text) {
            Err(IntegerError::TooSmall)
        } else {
            Err(IntegerError::TooLarge)
        }
    } else if digits.len() == 0 || count < digits.len() {
        Err(IntegerError::InvalidDigit)
    } else if is_negative(text) {
        Ok(-(magnitude as int))
    } else {
        Ok(magnitude as int)
    }
}

proof fn lemma_leading_digits(text: Seq<char>)
    ensures
        leading_digits(text) <= text.len(),
        forall|i: int| 0 <= i < leading_digits(text) ==> number::is_digit(#[trigger] text[i]),
        leading_digits(text) < text.len() ==> !number::is_digit(
            text[leading_digits(text) as int],
        ),
    decreases text.len(),
{
    if text.len() > 0 && number::is_digit(text[0]) {
        lemma_leading_digits(text.skip(1));
        assert forall|i: int| 0 <= i < leading_digits(text) implies number::is_digit(
            #[trigger] text[i],
        ) by {
            if i > 0 {
                assert(text[i] == text.skip(1)[i - 1]);
            }
        }
    }
}

/// Read a 64-bit integer.
pub fn parse_integer(text: &str) -> (result: Result<i64, IntegerError>)
    ensures
        match result {
            Ok(value) => integer(text@) == Ok::<_, IntegerError>(value as int),
            Err(error) => integer(text@) == Err::<int, _>(error),
        },
{
    let chars = text::chars_of(text);
    if chars.len() == 0 {
        return Err(IntegerError::Empty);
    }
    let negative = chars[0] == '-';
    let start: usize = if negative || chars[0] == '+' {
        1
    } else {
        0
    };
    let limit: u64 = if negative {
        0x8000_0000_0000_0000
    } else {
        0x7fff_ffff_ffff_ffff
    };
    let ghost digits = without_sign(text@);
    assert(digits =~= text@.skip(start as int));
    let mut value: u64 = 0;
    let mut end: usize = start;
    assert(digits.take(0) =~= seq![]);
    proof {
        lemma_leading_digits(digits);
    }
    while end < chars.len() && '0' <= chars[end] && chars[end] <= '9'
        invariant
            chars@ == text@,
            chars@.len() > 0,
            negative == is_negative(text@),
            digits == without_sign(text@),
            digits == text@.skip(start as int),
            start <= end <= chars@.len(),
            limit == magnitude_limit(negative),
            value <= limit,
            value == number::digits_value(digits.take(end - start)),
            forall|i: int| 0 <= i < end - start ==> number::is_digit(#[trigger] digits[i]),
            leading_digits(digits) <= digits.len(),
            forall|i: int|
                0 <= i < leading_digits(digits) ==> number::is_digit(#[trigger] digits[i]),
            leading_digits(digits) < digits.len() ==> !number::is_digit(
                digits[leading_digits(digits) as int],
            ),
        decreases chars.len() - end,
    {
        let digit = chars[end] as u32 - '0' as u32;
        let next = value as u128 * 10 + digit as u128;
        assert(digits[end - start] == chars@[end as int]);
        assert(digits.take(end + 1 - start).drop_last() =~= digits.take(end - start));
        if next > limit as u128 {
            proof {
                let count = leading_digits(digits) as int;
                assert(end - start < count) by {
                    if count <= end - start && count < digits.len() {
                        assert(number::is_digit(digits[count]));
                    }
                }
                number::lemma_digits_value_grows(digits.take(count), end + 1 - start);
                assert(digits.take(count).take(end + 1 - start) =~= digits.take(end + 1 - start));
            }
            return if negative {
                Err(IntegerError::TooSmall)
            } else {
                Err(IntegerError::TooLarge)
            };
        }
        value = next as u64;
        end = end + 1;
    }
    proof {
        let count = leading_digits(digits) as int;
        assert(count == end - start) by {
            if count < end - start {
                assert(number::is_digit(digits[count]));
            }
            if end - start < count {
                assert(number::is_digit(digits[end - start]));
                assert(digits[end - start] == chars@[end as int]);
            }
        }
    }
    if end < chars.len() || end == start {
        return Err(IntegerError::InvalidDigit);
    }
    if negative {
        if value == 0x8000_0000_0000_0000 {
            Ok(i64::MIN)
        } else {
            Ok(-(value as i64))
        }
    } else {
        Ok(value as i64)
    }
}

/// The truth value that a text names.
pub open spec fn truth(text: Seq<char>) -> Option<bool> {
    if text == "true"@ {
        Some(true)
    } else if text == "false"@ {
        Some(false)
    } else {
        None
    }
}

/// Read a truth value.
pub fn parse_truth(text: &str) -> (result: Option<bool>)
    ensures
        result == truth(text@),
{
    if text::same_text(text, "true") {
        Some(true)
    } else if text::same_text(text, "false") {
        Some(false)
    } else {
        None
    }
}

/// The settings that repository-local configuration can change.
#[derive(Debug)]
pub struct Settings {
    /// Whether and how strongly the model should use explicit thinking.
    pub think: Think,
    /// Whether the streamed model reasoning is shown.
    pub show_thinking: bool,
    /// Bits of the sampling temperature.
    pub temperature: u32,
    /// Random seed for reproducible output on supported models.
    pub seed: Option<i64>,
    /// How long the model stays loaded after execution.
    pub keep_alive: Option<Elapsed>,
    /// Maximum time to wait for Ollama to respond.
    pub timeout: Elapsed,
    /// Files and directories whose diff is omitted.
    pub exclude_diff: Vec<RepoPath>,
}

/// A configured value.
#[derive(Debug)]
pub struct Configured {
    /// Whether the setting was given on the command line, which takes precedence.
    pub given: bool,
    /// The configured text, if any.
    pub value: Option<String>,
}

/// A configured value that was read as a number in another format.
#[derive(Debug)]
pub struct ConfiguredNumber {
    /// The configured text.
    pub configured: Configured,
    /// Bits of the number, or the reason why the text is none.
    pub read: Result<u32, String>,
}

/// The repository-local configuration.
#[derive(Debug)]
pub struct LocalConfig {
    /// `git-scribe.think`.
    pub think: Configured,
    /// `git-scribe.showThinking`.
    pub show_thinking: Configured,
    /// `git-scribe.temperature`.
    pub temperature: ConfiguredNumber,
    /// `git-scribe.seed`.
    pub seed: Configured,
    /// `git-scribe.keepAlive`.
    pub keep_alive: Configured,
    /// `git-scribe.timeout`.
    pub timeout: Configured,
    /// The values of `git-scribe.excludeDiff`.
    pub exclude_diff: Vec<Vec<u8>>,
}

/// A configured value that is refused.
#[derive(Debug, Clone, PartialEq, Eq)]
pub struct ConfigError {
    /// Which value is refused.
    pub context: String,
    /// Why it is refused.
    pub cause: Option<String>,
}

/// What a [`ConfigError`] holds.
pub ghost struct ConfigFault {
    pub context: Seq<char>,
    pub cause: Option<Seq<char>>,
}

impl View for ConfigError {
    type V = ConfigFault;

    open spec fn view(&self) -> ConfigFault {
        ConfigFault {
            context: self.context@,
            cause: match self.cause {
                Some(cause) => Some(cause@),
                None => None,
            },
        }
    }
}

/// What [`Settings`] hold.
pub ghost struct SettingsView {
    pub think: Think,
    pub show_thinking: bool,
    pub temperature: u32,
    pub seed: Option<i64>,
    pub keep_alive: Option<nat>,
    pub timeout: nat,
    pub exclude_diff: Seq<Seq<u8>>,
}

impl View for Settings {
    type V = SettingsView;

    open spec fn view(&self) -> SettingsView {
        SettingsView {
            think: self.think,
            show_thinking: self.show_thinking,
            temperature: self.temperature,
            seed: self.seed,
            keep_alive: progress::optional_moment(self.keep_alive),
            timeout: self.timeout@,
            exclude_diff: order::path_bytes(self.exclude_diff@),
        }
    }
}

/// The configured text that counts: none where the command line has the setting.
pub open spec fn effective(configured: Configured) -> Option<Seq<char>> {
    match configured.value {
        Some(value) => if configured.given {
            None
        } else {
            Some(value@)
        },
        None => None,
    }
}

/// A refused value.
pub open spec fn refused(key: Seq<char>, value: Seq<char>, cause: Seq<char>) -> ConfigFault {
    ConfigFault { context: "invalid "@ + key + " value `"@ + value + "`"@, cause: Some(cause) }
}

/// A setting after its configured value: the value where it is accepted, or the fault.
pub open spec fn changed<T>(
    current: T,
    key: Seq<char>,
    value: Option<Seq<char>>,
    read: Result<T, Seq<char>>,
) -> Result<T, ConfigFault> {
    match value {
        None => Ok(current),
        Some(value) => match read {
            Ok(found) => Ok(found),
            Err(cause) => Err(refused(key, value, cause)),
        },
    }
}

/// The thinking level that a configured text names.
pub open spec fn read_think(value: Seq<char>) -> Result<Think, Seq<char>> {
    match think_named(value) {
        Some(think) => Ok(think),
        None => Err("invalid variant: "@ + value),
    }
}

/// The truth value that a configured text names.
pub open spec fn read_truth(value: Seq<char>) -> Result<bool, Seq<char>> {
    match truth(value) {
        Some(found) => Ok(found),
        None => Err("provided string was not `true` or `false`"@),
    }
}

/// The seed that a configured text holds.
pub open spec fn read_seed(value: Seq<char>) -> Result<Option<i64>, Seq<char>> {
    match integer(value) {
        Ok(seed) => Ok(Some(seed as i64)),
        Err(error) => Err(integer_error_text(error)),
    }
}

/// The text of a value that counts, or any text where there is none.
pub open spec fn effective_text(configured: Configured) -> Seq<char> {
    match effective(configured) {
        Some(value) => value,
        None => seq![],
    }
}

/// A reason as text.
pub open spec fn reason_of<T>(read: Result<T, String>) -> Result<T, Seq<char>> {
    match read {
        Ok(found) => Ok(found),
        Err(reason) => Err(reason@),
    }
}

/// An optional duration in nanoseconds, where the text is one.
pub open spec fn some_duration(read: Result<nat, Seq<char>>) -> Result<Option<nat>, Seq<char>> {
    match read {
        Ok(found) => Ok(Some(found)),
        Err(reason) => Err(reason),
    }
}

/// The configured exclusions; the first fault counts.
pub open spec fn configured_exclusions(values: Seq<Seq<u8>>) -> Result<Seq<Seq<u8>>, ConfigFault>
    decreases values.len(),
{
    if values.len() == 0 {
        Ok(seq![])
    } else {
        match configured_exclusions(values.drop_last()) {
            Err(fault) => Err(fault),
            Ok(before) => if !vstd::utf8::valid_utf8(values.last()) {
                Err(
                    ConfigFault {
                        context: "invalid non-UTF-8 git-scribe.excludeDiff value"@,
                        cause: None,
                    },
                )
            } else if values.last().len() == 0 {
                Err(
                    ConfigFault {
                        context:
                            "invalid git-scribe.excludeDiff value: path must not be empty"@,
                        cause: None,
                    },
                )
            } else {
                Ok(before.push(values.last()))
            },
        }
    }
}

/// The settings after the configuration; the first fault counts.
pub open spec fn configured_settings(settings: SettingsView, config: LocalConfig) -> Result<
    SettingsView,
    ConfigFault,
> {
    match changed(
        settings.think,
        "git-scribe.think"@,
        effective(config.think),
        read_think(effective_text(config.think)),
    ) {
        Err(fault) => Err(fault),
        Ok(think) => match changed(
            settings.show_thinking,
            "git-scribe.showthinking"@,
            effective(config.show_thinking),
            read_truth(effective_text(config.show_thinking)),
        ) {
            Err(fault) => Err(fault),
            Ok(show_thinking) => match changed(
                settings.temperature,
                "git-scribe.temperature"@,
                effective(config.temperature.configured),
                reason_of(config.temperature.read),
            ) {
                Err(fault) => Err(fault),
                Ok(temperature) => match changed(
                    settings.seed,
                    "git-scribe.seed"@,
                    effective(config.seed),
                    read_seed(effective_text(config.seed)),
                ) {
                    Err(fault) => Err(fault),
                    Ok(seed) => match changed(
                        settings.keep_alive,
                        "git-scribe.keepalive"@,
                        effective(config.keep_alive),
                        some_duration(duration::duration_nanos(effective_text(config.keep_alive))),
                    ) {
                        Err(fault) => Err(fault),
                        Ok(keep_alive) => match changed(
                            settings.timeout,
                            "git-scribe.timeout"@,
                            effective(config.timeout),
                            duration::duration_nanos(effective_text(config.timeout)),
                        ) {
                            Err(fault) => Err(fault),
                            Ok(timeout) => match configured_exclusions(
                                bytes::blobs(config.exclude_diff@),
                            ) {
                                Err(fault) => Err(fault),
                                Ok(configured) => Ok(
                                    SettingsView {
                                        think,
                                        show_thinking,
                                        temperature,
                                        seed,
                                        keep_alive,
                                        timeout,
                                        exclude_diff: configured + settings.exclude_diff,
                                    },
                                ),
                            },
                        },
                    },
                },
            },
        },
    }
}

/// The fault of a value.
fn refuse(key: &str, value: &str, cause: &str) -> (error: ConfigError)
    ensures
        error@ == refused(key@, value@, cause@),
{
    let mut context = "invalid ".to_owned();
    context.append(key);
    context.append(" value `");
    context.append(value);
    context.append("`");
    ConfigError { context, cause: Some(cause.to_owned()) }
}

impl Configured {
    /// The text that counts.
    fn effective_value(&self) -> (result: Option<&String>)
        ensures
            match result {
                Some(value) => effective(*self) == Some(value@),
                None => effective(*self) is None,
            },
    {
        match &self.value {
            Some(value) => {
                if self.given {
                    None
                } else {
                    Some(value)
                }
            },
            None => None,
        }
    }
}

/// Read the configured exclusions.
fn read_exclusions(values: &[Vec<u8>]) -> (result: Result<Vec<RepoPath>, ConfigError>)
    ensures
        match result {
            Ok(paths) => configured_exclusions(bytes::blobs(values@)) == Ok::<
                _,
                ConfigFault,
            >(order::path_bytes(paths@)),
            Err(error) => configured_exclusions(bytes::blobs(values@)) == Err::<
                Seq<Seq<u8>>,
                _,
            >(error@),
        },
{
    let ghost views = bytes::blobs(values@);
    let mut paths: Vec<RepoPath> = Vec::new();
    assert(order::path_bytes(paths@) =~= seq![]);
    for i in 0..values.len()
        invariant
            views == bytes::blobs(values@),
            configured_exclusions(views.take(i as int)) == Ok::<_, ConfigFault>(
                order::path_bytes(paths@),
            ),
    {
        let value = &values[i];
        assert(views.take(i + 1).drop_last() =~= views.take(i as int));
        assert(views.take(i + 1).last() == value@);
        if text::strict_text(value).is_none() {
            proof {
                lemma_exclusions_fail(views, i + 1);
            }
            return Err(
                ConfigError {
                    context: "invalid non-UTF-8 git-scribe.excludeDiff value".to_owned(),
                    cause: None,
                },
            );
        }
        if value.len() == 0 {
            proof {
                lemma_exclusions_fail(views, i + 1);
            }
            return Err(
                ConfigError {
                    context:
                        "invalid git-scribe.excludeDiff value: path must not be empty".to_owned(),
                    cause: None,
                },
            );
        }
        let path = RepoPath { bytes: bytes::bytes_between(value, 0, value.len()) };
        assert(path@ =~= value@);
        let ghost before = order::path_bytes(paths@);
        paths.push(path);
        assert(order::path_bytes(paths@) =~= before.push(value@));
    }
    assert(views.take(values@.len() as int) =~= views);
    Ok(paths)
}

/// A fault in one of the first values is the fault of all.
proof fn lemma_exclusions_fail(values: Seq<Seq<u8>>, count: int)
    requires
        0 <= count <= values.len(),
        configured_exclusions(values.take(count)) is Err,
    ensures
        configured_exclusions(values) == configured_exclusions(values.take(count)),
    decreases values.len(),
{
    if count < values.len() {
        assert(values.drop_last().take(count) =~= values.take(count));
        lemma_exclusions_fail(values.drop_last(), count);
    } else {
        assert(values.take(count) =~= values);
    }
}

impl Settings {
    /// Apply repository-local defaults.
    ///
    /// Values passed on the command line always take precedence. Configured exclusions come first,
    /// so that command-line occurrences retain their order and add to, rather than replace,
    /// repository defaults.
    pub fn apply_local_config(self, config: LocalConfig) -> (result: Result<Settings, ConfigError>)
        ensures
            match result {
                Ok(settings) => configured_settings(self@, config) == Ok::<_, ConfigFault>(
                    settings@,
                ),
                Err(error) => configured_settings(self@, config) == Err::<SettingsView, _>(error@),
            },
    {
        let mut settings = self;
        if let Some(value) = config.think.effective_value() {
            match Think::from_name(value) {
                Some(think) => {
                    settings.think = think;
                },
                None => {
                    let mut cause = "invalid variant: ".to_owned();
                    cause.append(value);
                    return Err(refuse("git-scribe.think", value, &cause));
                },
            }
        }
        if let Some(value) = config.show_thinking.effective_value() {
            match parse_truth(value) {
                Some(show_thinking) => {
                    settings.show_thinking = show_thinking;
                },
                None => {
                    return Err(
                        refuse(
                            "git-scribe.showthinking",
                            value,
                            "provided string was not `true` or `false`",
                        ),
                    );
                },
            }
        }
        if let Some(value) = config.temperature.configured.effective_value() {
            match &config.temperature.read {
                Ok(temperature) => {
                    settings.temperature = *temperature;
                },
                Err(reason) => return Err(refuse("git-scribe.temperature", value, reason)),
            }
        }
        if let Some(value) = config.seed.effective_value() {
            match parse_integer(value) {
                Ok(seed) => {
                    settings.seed = Some(seed);
                },
                Err(error) => return Err(refuse("git-scribe.seed", value, error.message())),
            }
        }
        if let Some(value) = config.keep_alive.effective_value() {
            match duration::parse_duration(value) {
                Ok(keep_alive) => {
                    settings.keep_alive = Some(keep_alive);
                },
                Err(reason) => return Err(refuse("git-scribe.keepalive", value, &reason)),
            }
        }
        if let Some(value) = config.timeout.effective_value() {
            match duration::parse_duration(value) {
                Ok(timeout) => {
                    settings.timeout = timeout;
                },
                Err(reason) => return Err(refuse("git-scribe.timeout", value, &reason)),
            }
        }
        let mut exclude_diff = match read_exclusions(&config.exclude_diff) {
            Ok(paths) => paths,
            Err(error) => return Err(error),
        };
        let ghost configured = order::path_bytes(exclude_diff@);
        let ghost given = order::path_bytes(self.exclude_diff@);
        assert(order::path_bytes(exclude_diff@) =~= configured + given.take(0));
        for i in 0..settings.exclude_diff.len()
            invariant
                given == order::path_bytes(settings.exclude_diff@),
                order::path_bytes(exclude_diff@) == configured + given.take(i as int),
        {
            let path = settings.exclude_diff[i].copied();
            let ghost before = order::path_bytes(exclude_diff@);
            exclude_diff.push(path);
            assert(order::path_bytes(exclude_diff@) =~= before.push(path@));
            assert(given.take(i + 1) =~= given.take(i as int).push(path@));
            assert(order::path_bytes(exclude_diff@) =~= configured + given.take(i + 1));
        }
        assert(given.take(given.len() as int) =~= given);
        settings.exclude_diff = exclude_diff;
        Ok(settings)
    }
}

/// A setting given on the command line stays as it is, whatever is configured.
pub proof fn lemma_command_line_wins(settings: SettingsView, config: LocalConfig)
    ensures
        configured_settings(settings, config) matches Ok(after) ==> {
            &&& config.think.given ==> after.think == settings.think
            &&& config.show_thinking.given ==> after.show_thinking == settings.show_thinking
            &&& config.temperature.configured.given ==> after.temperature == settings.temperature
            &&& config.seed.given ==> after.seed == settings.seed
            &&& config.keep_alive.given ==> after.keep_alive == settings.keep_alive
            &&& config.timeout.given ==> after.timeout == settings.timeout
        },
{
}

/// Exclusions given on the command line are kept, in order, behind the configured ones.
pub proof fn lemma_exclusions_add_up(settings: SettingsView, config: LocalConfig)
    ensures
        configured_settings(settings, config) matches Ok(after) ==> text::ends_with(
            after.exclude_diff,
            settings.exclude_diff,
        ),
{
    if let Ok(after) = configured_settings(settings, config) {
        let start = after.exclude_diff.len() - settings.exclude_diff.len();
        assert(after.exclude_diff.skip(start) =~= settings.exclude_diff);
    }
}

/// Without any configured value, the settings stay as they are.
pub proof fn lemma_no_configuration_changes_nothing(settings: SettingsView, config: LocalConfig)
    requires
        config.think.value is None,
        config.show_thinking.value is None,
        config.temperature.configured.value is None,
        config.seed.value is None,
        config.keep_alive.value is None,
        config.timeout.value is None,
        config.exclude_diff@.len() == 0,
    ensures
        configured_settings(settings, config) == Ok::<_, ConfigFault>(settings),
{
    assert(bytes::blobs(config.exclude_diff@) =~= seq![]);
    assert(Seq::<Seq<u8>>::empty() + settings.exclude_diff =~= settings.exclude_diff);
}

/// Whether a configured value that counts is read.
pub open spec fn is_readable<T>(configured: Configured, read: Result<T, Seq<char>>) -> bool {
    effective(configured) is Some ==> read is Ok
}

/// A setting: the configured value where one counts, or else the current one.
pub open spec fn setting<T>(current: T, configured: Configured, read: Result<T, Seq<char>>) -> T {
    match (effective(configured), read) {
        (Some(_), Ok(value)) => value,
        _ => current,
    }
}

proof fn lemma_exclusions_are_taken(values: Seq<Seq<u8>>)
    requires
        forall|i: int|
            0 <= i < values.len() ==> vstd::utf8::valid_utf8(#[trigger] values[i])
                && values[i].len() > 0,
    ensures
        configured_exclusions(values) == Ok::<_, ConfigFault>(values),
    decreases values.len(),
{
    if values.len() > 0 {
        let rest = values.drop_last();
        assert forall|i: int| 0 <= i < rest.len() implies vstd::utf8::valid_utf8(
            #[trigger] rest[i],
        ) && rest[i].len() > 0 by {
            assert(rest[i] == values[i]);
        }
        lemma_exclusions_are_taken(rest);
        assert(values[values.len() - 1] == values.last());
        assert(rest.push(values.last()) =~= values);
    } else {
        assert(values =~= seq![]);
    }
}

/// Where every configured value is read and no exclusion is empty, the configuration is applied:
/// each setting is the one given on the command line, or else the configured one, or else stays as
/// it is.
pub proof fn lemma_readable_configuration_is_applied(settings: SettingsView, config: LocalConfig)
    requires
        is_readable(config.think, read_think(effective_text(config.think))),
        is_readable(config.show_thinking, read_truth(effective_text(config.show_thinking))),
        is_readable(config.temperature.configured, reason_of(config.temperature.read)),
        is_readable(config.seed, read_seed(effective_text(config.seed))),
        is_readable(
            config.keep_alive,
            duration::duration_nanos(effective_text(config.keep_alive)),
        ),
        is_readable(config.timeout, duration::duration_nanos(effective_text(config.timeout))),
        forall|i: int|
            0 <= i < config.exclude_diff@.len() ==> vstd::utf8::valid_utf8(
                (#[trigger] config.exclude_diff@[i])@,
            ) && config.exclude_diff@[i]@.len() > 0,
    ensures
        configured_settings(settings, config) == Ok::<_, ConfigFault>(
            SettingsView {
                think: setting(
                    settings.think,
                    config.think,
                    read_think(effective_text(config.think)),
                ),
                show_thinking: setting(
                    settings.show_thinking,
                    config.show_thinking,
                    read_truth(effective_text(config.show_thinking)),
                ),
                temperature: setting(
                    settings.temperature,
                    config.temperature.configured,
                    reason_of(config.temperature.read),
                ),
                seed: setting(settings.seed, config.seed, read_seed(effective_text(config.seed))),
                keep_alive: setting(
                    settings.keep_alive,
                    config.keep_alive,
                    some_duration(duration::duration_nanos(effective_text(config.keep_alive))),
                ),
                timeout: setting(
                    settings.timeout,
                    config.timeout,
                    duration::duration_nanos(effective_text(config.timeout)),
                ),
                exclude_diff: bytes::blobs(config.exclude_diff@) + settings.exclude_diff,
            },
        ),
{
    let values = bytes::blobs(config.exclude_diff@);
    assert forall|i: int| 0 <= i < values.len() implies vstd::utf8::valid_utf8(#[trigger] values[i])
        && values[i].len() > 0 by {
        assert(values[i] == config.exclude_diff@[i]@);
    }
    lemma_exclusions_are_taken(values);
}

/// Underscores count for nothing, and everything else stays in its order.
pub proof fn lemma_underscores_count_for_nothing(left: Seq<char>, right: Seq<char>)
    ensures
        without_underscores(left + right) == without_underscores(left) + without_underscores(right),
        without_underscores(left + seq!['_'] + right) == without_underscores(left + right),
        !left.contains('_') ==> without_underscores(left) == left,
{
    lemma_underscores_concat(left, right);
    lemma_underscores_concat(left, seq!['_']);
    lemma_underscores_concat(left + seq!['_'], right);
    assert(seq!['_'].drop_last() =~= seq![]);
    assert(without_underscores(seq![]) =~= seq![]);
    assert(without_underscores(seq!['_']) =~= seq![]);
    assert(without_underscores(left) + seq![] =~= without_underscores(left));
    lemma_nothing_to_leave_out(left);
}

proof fn lemma_underscores_concat(left: Seq<char>, right: Seq<char>)
    ensures
        without_underscores(left + right) == without_underscores(left) + without_underscores(right),
    decreases right.len(),
{
    if right.len() == 0 {
        assert(left + right =~= left);
        assert(without_underscores(left) + without_underscores(right) =~= without_underscores(
            left,
        ));
    } else {
        lemma_underscores_concat(left, right.drop_last());
        assert((left + right).drop_last() =~= left + right.drop_last());
        assert(without_underscores(left + right) =~= without_underscores(left)
            + without_underscores(right));
    }
}

proof fn lemma_nothing_to_leave_out(text: Seq<char>)
    ensures
        !text.contains('_') ==> without_underscores(text) == text,
    decreases text.len(),
{
    if text.len() > 0 && !text.contains('_') {
        let rest = text.drop_last();
        assert forall|i: int| 0 <= i < rest.len() implies rest[i] != '_' by {
            assert(text[i] == rest[i]);
        }
        lemma_nothing_to_leave_out(rest);
        assert(text[text.len() - 1] == text.last());
        assert(without_underscores(text) =~= text);
    } else if text.len() == 0 {
        assert(without_underscores(text) =~= text);
    }
}

/// A count in decimal digits is read as it is, times 1,024 where `k` or `K` follows it, and times
/// 1,024 twice where `m` or `M` does.
pub proof fn lemma_token_counts_are_read_back(count: nat, suffix: char)
    requires
        count <= u32::MAX,
    ensures
        ({
            let plain = without_underscores(text::decimal(count));
            &&& number::number(without_suffix(plain), u32::MAX as nat) == Some(count)
            &&& suffix_factor(plain) == 1
        }),
        suffix == 'k' || suffix == 'K' || suffix == 'm' || suffix == 'M' ==> ({
            let scaled = without_underscores(text::decimal(count).push(suffix));
            &&& number::number(without_suffix(scaled), u32::MAX as nat) == Some(count)
            &&& suffix_factor(scaled) == if suffix == 'k' || suffix == 'K' {
                1_024nat
            } else {
                1_024 * 1_024
            }
        }),
{
    let digits = text::decimal(count);
    number::lemma_decimal_digits(count);
    number::lemma_decimals_are_read_back(count, u32::MAX as nat);
    assert forall|i: int| 0 <= i < digits.len() implies digits[i] != '_' by {
        assert(number::is_digit(digits[i]));
    }
    lemma_nothing_to_leave_out(digits);
    assert(number::is_digit(digits[digits.len() - 1]));
    if suffix == 'k' || suffix == 'K' || suffix == 'm' || suffix == 'M' {
        let scaled = digits.push(suffix);
        assert forall|i: int| 0 <= i < scaled.len() implies scaled[i] != '_' by {
            if i < digits.len() {
                assert(scaled[i] == digits[i]);
            }
        }
        lemma_nothing_to_leave_out(scaled);
        assert(scaled.drop_last() =~= digits);
    }
}

proof fn lemma_all_digits_lead(text: Seq<char>)
    requires
        forall|i: int| 0 <= i < text.len() ==> number::is_digit(#[trigger] text[i]),
    ensures
        leading_digits(text) == text.len(),
    decreases text.len(),
{
    if text.len() > 0 {
        let rest = text.skip(1);
        assert forall|i: int| 0 <= i < rest.len() implies number::is_digit(#[trigger] rest[i]) by {
            assert(rest[i] == text[i + 1]);
        }
        lemma_all_digits_lead(rest);
        assert(number::is_digit(text[0]));
    }
}

/// An integer in decimal digits is read as it is, and as its negative behind a minus sign; one that
/// is too large for 64 bits is refused.
pub proof fn lemma_integers_are_read_back(value: nat)
    ensures
        value <= i64::MAX ==> integer(text::decimal(value)) == Ok::<_, IntegerError>(value as int),
        value <= i64::MAX ==> integer(seq!['+'] + text::decimal(value)) == Ok::<_, IntegerError>(
            value as int,
        ),
        value <= i64::MAX + 1 ==> integer(seq!['-'] + text::decimal(value)) == Ok::<
            _,
            IntegerError,
        >(-(value as int)),
        value > i64::MAX ==> integer(text::decimal(value)) is Err,
        value > i64::MAX + 1 ==> integer(seq!['-'] + text::decimal(value)) is Err,
{
    let digits = text::decimal(value);
    number::lemma_decimal_digits(value);
    lemma_all_digits_lead(digits);
    assert(number::is_digit(digits[0]));
    assert(digits.take(digits.len() as int) =~= digits);
    assert((seq!['+'] + digits).skip(1) =~= digits);
    assert((seq!['-'] + digits).skip(1) =~= digits);
    assert((seq!['+'] + digits)[0] == '+');
    assert((seq!['-'] + digits)[0] == '-');
}

/// Upper and lower case make no difference to how thinking is named.
pub proof fn lemma_case_does_not_matter(left: Seq<char>, right: Seq<char>)
    requires
        left.len() == right.len(),
        forall|i: int|
            0 <= i < left.len() ==> #[trigger] left[i] == right[i] || ('a' <= left[i] <= 'z'
                && right[i] as int == left[i] as int - 32),
    ensures
        think_named(left) == think_named(right),
{
    assert forall|i: int| 0 <= i < left.len() implies lower(#[trigger] left[i]) == lower(
        right[i],
    ) by {}
    lemma_same_case(left, right, "off"@);
    lemma_same_case(left, right, "on"@);
    lemma_same_case(left, right, "low"@);
    lemma_same_case(left, right, "high"@);
}

proof fn lemma_same_case(left: Seq<char>, right: Seq<char>, name: Seq<char>)
    requires
        left.len() == right.len(),
        forall|i: int| 0 <= i < left.len() ==> lower(#[trigger] left[i]) == lower(right[i]),
    ensures
        same_ignoring_case(left, name) == same_ignoring_case(right, name),
{
    if same_ignoring_case(left, name) {
        assert forall|i: int| 0 <= i < right.len() implies lower(#[trigger] right[i]) == lower(
            name[i],
        ) by {
            assert(lower(left[i]) == lower(right[i]));
        }
    }
    if same_ignoring_case(right, name) {
        assert forall|i: int| 0 <= i < left.len() implies lower(#[trigger] left[i]) == lower(
            name[i],
        ) by {
            assert(lower(right[i]) == lower(name[i]));
        }
    }
}

/// A configured value that counts and cannot be read is refused, whichever it is; so is a path that
/// is empty or is no text.
pub proof fn lemma_unreadable_configuration_is_refused(settings: SettingsView, config: LocalConfig)
    ensures
        effective(config.think) matches Some(value) && think_named(value) is None
            ==> configured_settings(settings, config) is Err,
        effective(config.show_thinking) matches Some(value) && value != "true"@ && value
            != "false"@ ==> configured_settings(settings, config) is Err,
        effective(config.temperature.configured) is Some && config.temperature.read is Err
            ==> configured_settings(settings, config) is Err,
        effective(config.seed) matches Some(value) && integer(value) is Err ==> configured_settings(
            settings,
            config,
        ) is Err,
        effective(config.keep_alive) matches Some(value) && duration::duration_nanos(value) is Err
            ==> configured_settings(settings, config) is Err,
        effective(config.timeout) matches Some(value) && duration::duration_nanos(value) is Err
            ==> configured_settings(settings, config) is Err,
        (exists|i: int|
            0 <= i < config.exclude_diff@.len() && ((#[trigger] config.exclude_diff@[i])@.len()
                == 0 || !vstd::utf8::valid_utf8(config.exclude_diff@[i]@)))
            ==> configured_settings(settings, config) is Err,
{
    if exists|i: int|
        0 <= i < config.exclude_diff@.len() && ((#[trigger] config.exclude_diff@[i])@.len() == 0
            || !vstd::utf8::valid_utf8(config.exclude_diff@[i]@)) {
        let i = choose|i: int|
            0 <= i < config.exclude_diff@.len() && ((#[trigger] config.exclude_diff@[i])@.len()
                == 0 || !vstd::utf8::valid_utf8(config.exclude_diff@[i]@));
        lemma_bad_exclusions_are_refused(bytes::blobs(config.exclude_diff@), i);
    }
}

proof fn lemma_bad_exclusions_are_refused(values: Seq<Seq<u8>>, i: int)
    requires
        0 <= i < values.len(),
        values[i].len() == 0 || !vstd::utf8::valid_utf8(values[i]),
    ensures
        configured_exclusions(values) is Err,
    decreases values.len(),
{
    if i < values.len() - 1 {
        assert(values.drop_last()[i] == values[i]);
        lemma_bad_exclusions_are_refused(values.drop_last(), i);
    }
}

} // verus!
