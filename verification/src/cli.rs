//! Command-line parsing: option recognition, integer values and error messages.
use vstd::prelude::*;
use crate::config::{default_settings, NoiseKind, Settings, SettingsModel, SignalShape};
use crate::report::noise_label;
use crate::text::{chars_of, decimal_text, digit_char, is_word, joined, string_of};

verus! {

/// A command-line error; its text (see [`CliError::text`]) always points to `--help`.
#[derive(Debug, Clone, PartialEq, Eq)]
pub struct CliError {
    pub message: String,
}

/// Suffix appended to every command-line error when it is shown.
pub open spec fn usage_hint() -> Seq<char> {
    "; use --help for usage"@
}

impl CliError {
    /// The error as shown to the user: the message followed by a pointer to `--help`.
    pub fn text(&self) -> (r: String)
        ensures
            r@ == self.message@ + usage_hint(),
    {
        joined(self.message.as_str(), "; use --help for usage")
    }
}

/// A command-line error carrying `message`.
pub fn error(message: String) -> (r: CliError)
    ensures
        r.message@ == message@,
{
    CliError { message }
}

/// An ASCII decimal digit.
pub open spec fn is_digit(c: char) -> bool {
    '0' <= c && c <= '9'
}

/// The value of a decimal digit.
pub open spec fn digit_value(c: char) -> nat {
    (c as int - '0' as int) as nat
}

/// The value of a string of decimal digits.
pub open spec fn decimal_value(d: Seq<char>) -> nat
    decreases d.len(),
{
    if d.len() == 0 {
        0
    } else {
        decimal_value(d.drop_last()) * 10 + digit_value(d.last())
    }
}

/// The digits of an unsigned number: the text without one leading `+`.
pub open spec fn unsigned_digits(s: Seq<char>) -> Seq<char> {
    if s.len() > 0 && s[0] == '+' {
        s.drop_first()
    } else {
        s
    }
}

/// Text accepted as an unsigned integer: an optional `+` followed by one or more
/// ASCII digits, nothing else.
pub open spec fn is_unsigned_text(s: Seq<char>) -> bool {
    let d = unsigned_digits(s);
    d.len() > 0 && forall|i: int| 0 <= i < d.len() ==> is_digit(#[trigger] d[i])
}

/// The message for a value that does not parse as a number for `option`.
pub open spec fn invalid_value_message(option: Seq<char>, value: Seq<char>) -> Seq<char> {
    "invalid value '"@ + value + "' for "@ + option
}

/// The outcome of reading `value` as an unsigned integer no larger than `limit`.
pub open spec fn number_outcome(option: Seq<char>, value: Seq<char>, limit: u64) -> Result<
    u64,
    Seq<char>,
> {
    if is_unsigned_text(value) && decimal_value(unsigned_digits(value)) <= limit {
        Ok(decimal_value(unsigned_digits(value)) as u64)
    } else {
        Err(invalid_value_message(option, value))
    }
}

/// The value of a prefix never exceeds the value of the whole digit string.
proof fn lemma_decimal_prefix_le(d: Seq<char>, k: int)
    requires
        0 <= k <= d.len(),
        forall|i: int| 0 <= i < d.len() ==> is_digit(#[trigger] d[i]),
    ensures
        decimal_value(d.take(k)) <= decimal_value(d),
    decreases d.len() - k,
{
    if k < d.len() {
        let e = d.take(k + 1);
        assert(e.drop_last() =~= d.take(k));
        lemma_decimal_prefix_le(d, k + 1);
    } else {
        assert(d.take(k) =~= d);
    }
}

/// The unsigned integer spelled by `value`, when it is no larger than `limit`.
fn read_unsigned(value: &Vec<char>, limit: u64) -> (r: Option<u64>)
    ensures
        match r {
            Some(n) => is_unsigned_text(value@) && decimal_value(unsigned_digits(value@)) <= limit
                && n == decimal_value(unsigned_digits(value@)),
            None => !(is_unsigned_text(value@) && decimal_value(unsigned_digits(value@)) <= limit),
        },
{
    let start: usize = if value.len() > 0 && value[0] == '+' {
        1
    } else {
        0
    };
    let ghost d = unsigned_digits(value@);
    assert(d =~= value@.skip(start as int));
    if start == value.len() {
        return None;
    }
    let mut acc: u64 = 0;
    let mut i = start;
    while i < value.len()
        invariant
            d == value@.skip(start as int),
            d == unsigned_digits(value@),
            start <= i <= value.len(),
            forall|j: int| 0 <= j < i - start ==> is_digit(#[trigger] d[j]),
            acc == decimal_value(d.take(i - start)),
            acc <= limit,
        decreases value.len() - i,
    {
        let c = value[i];
        if !('0' <= c && c <= '9') {
            assert(!is_digit(d[i - start]));
            return None;
        }
        let digit = (c as u32 - '0' as u32) as u64;
        let next: u128 = acc as u128 * 10 + digit as u128;
        proof {
            let t = d.take(i - start + 1);
            assert(t.drop_last() =~= d.take(i - start));
            assert(t.last() == c);
            assert(next == decimal_value(t));
        }
        if next > limit as u128 {
            proof {
                if is_unsigned_text(value@) {
                    lemma_decimal_prefix_le(d, i - start + 1);
                }
            }
            return None;
        }
        acc = next as u64;
        i = i + 1;
    }
    assert(d.take(i - start) =~= d);
    Some(acc)
}

/// Reads `value` as an unsigned integer no larger than `limit` (the largest value of
/// the target integer type), or reports it as invalid for `option`.
pub fn number(option: &str, value: &str, limit: u64) -> (r: Result<u64, CliError>)
    ensures
        match number_outcome(option@, value@, limit) {
            Ok(n) => r == Ok::<u64, CliError>(n),
            Err(m) => r matches Err(e) && e.message@ == m,
        },
{
    let chars = chars_of(value);
    match read_unsigned(&chars, limit) {
        Some(n) => Ok(n),
        None => {
            let mut message = joined("invalid value '", value);
            message.append("' for ");
            message.append(option);
            Err(error(message))
        }
    }
}

/// `s` split at every comma; a text without commas is one piece, and empty pieces
/// are kept.
pub open spec fn split_commas(s: Seq<char>) -> Seq<Seq<char>>
    decreases s.len(),
{
    if s.len() == 0 {
        seq![Seq::<char>::empty()]
    } else {
        let rest = split_commas(s.drop_last());
        if s.last() == ',' {
            rest.push(Seq::<char>::empty())
        } else {
            rest.update(rest.len() - 1, rest.last().push(s.last()))
        }
    }
}

/// Reading every piece as an unsigned integer no larger than `limit`; the first
/// piece that fails gives the error.
pub open spec fn numbers_outcome(option: Seq<char>, pieces: Seq<Seq<char>>, limit: u64) -> Result<
    Seq<u64>,
    Seq<char>,
>
    decreases pieces.len(),
{
    if pieces.len() == 0 {
        Ok(Seq::<u64>::empty())
    } else {
        match numbers_outcome(option, pieces.drop_last(), limit) {
            Err(m) => Err(m),
            Ok(v) => match number_outcome(option, pieces.last(), limit) {
                Ok(n) => Ok(v.push(n)),
                Err(m) => Err(m),
            },
        }
    }
}

/// Once a comma has closed the pieces before it, later characters leave those
/// pieces unchanged.
proof fn lemma_split_prefix(s: Seq<char>, i: int, k: int)
    requires
        0 <= i < k <= s.len(),
        s[i] == ',',
    ensures
        split_commas(s.take(k)).len() > split_commas(s.take(i)).len(),
        split_commas(s.take(k)).take(split_commas(s.take(i)).len() as int) == split_commas(
            s.take(i),
        ),
    decreases k - i,
{
    let t = s.take(k);
    assert(t.drop_last() =~= s.take(k - 1));
    assert(t.last() == s[k - 1]);
    let before = split_commas(s.take(i));
    if k == i + 1 {
        assert(split_commas(t) =~= before.push(Seq::<char>::empty()));
        assert(split_commas(t).take(before.len() as int) =~= before);
    } else {
        lemma_split_prefix(s, i, k - 1);
        let prev = split_commas(s.take(k - 1));
        assert(split_commas(t).take(before.len() as int) =~= prev.take(before.len() as int));
    }
}

/// The first failing piece decides the outcome, whatever follows it.
proof fn lemma_numbers_first_error(option: Seq<char>, pieces: Seq<Seq<char>>, m: int, limit: u64)
    requires
        0 <= m <= pieces.len(),
        numbers_outcome(option, pieces.take(m), limit) is Err,
    ensures
        numbers_outcome(option, pieces, limit) == numbers_outcome(option, pieces.take(m), limit),
    decreases pieces.len() - m,
{
    if m == pieces.len() {
        assert(pieces.take(m) =~= pieces);
    } else {
        let q = pieces.take(m + 1);
        assert(q.drop_last() =~= pieces.take(m));
        lemma_numbers_first_error(option, pieces, m + 1, limit);
    }
}

proof fn lemma_numbers_prefix_error(
    option: Seq<char>,
    full: Seq<Seq<char>>,
    before: Seq<Seq<char>>,
    limit: u64,
    s: Seq<char>,
    i: int,
)
    requires
        0 <= i < s.len(),
        s[i] == ',',
        full == split_commas(s),
        before == split_commas(s.take(i)),
        numbers_outcome(option, before, limit) is Err,
    ensures
        numbers_outcome(option, full, limit) == numbers_outcome(option, before, limit),
{
    lemma_split_prefix(s, i, s.len() as int);
    assert(s.take(s.len() as int) =~= s);
    lemma_numbers_first_error(option, full, before.len() as int, limit);
}

/// Reads a comma-separated list of unsigned integers, each no larger than `limit`.
fn numbers(option: &str, value: &str, limit: u64) -> (r: Result<Vec<u64>, CliError>)
    ensures
        match numbers_outcome(option@, split_commas(value@), limit) {
            Ok(v) => r matches Ok(w) && w@ == v,
            Err(m) => r matches Err(e) && e.message@ == m,
        },
{
    let s = chars_of(value);
    let mut out: Vec<u64> = Vec::new();
    let mut cur: Vec<char> = Vec::new();
    proof {
        assert(s@.take(0) =~= Seq::<char>::empty());
        assert(split_commas(Seq::<char>::empty()).drop_last() =~= Seq::<Seq<char>>::empty());
    }
    for i in 0..s.len()
        invariant
            s@ == value@,
            split_commas(s@.take(i as int)).len() > 0,
            split_commas(s@.take(i as int)).last() == cur@,
            numbers_outcome(option@, split_commas(s@.take(i as int)).drop_last(), limit) == Ok::<
                Seq<u64>,
                Seq<char>,
            >(out@),
    {
        let ghost before = split_commas(s@.take(i as int));
        let c = s[i];
        proof {
            assert(s@.take(i + 1).drop_last() =~= s@.take(i as int));
            assert(s@.take(i + 1).last() == c);
        }
        if c == ',' {
            let piece = cur;
            cur = Vec::new();
            match read_unsigned(&piece, limit) {
                Some(n) => {
                    out.push(n);
                    proof {
                        assert(split_commas(s@.take(i + 1)).drop_last() =~= before);
                        assert(before =~= before.drop_last().push(piece@));
                    }
                },
                None => {
                    proof {
                        assert(before =~= before.drop_last().push(piece@));
                    }
                    let mut message = joined("invalid value '", string_of(&piece).as_str());
                    message.append("' for ");
                    message.append(option);
                    proof {
                        lemma_numbers_prefix_error(option@, split_commas(value@), before, limit, s@, i as int);
                    }
                    return Err(error(message));
                },
            }
        } else {
            cur.push(c);
            proof {
                let after = split_commas(s@.take(i + 1));
                assert(after.drop_last() =~= before.drop_last());
            }
        }
    }
    proof {
        assert(s@.take(s@.len() as int) =~= s@);
    }
    let ghost all = split_commas(value@);
    proof {
        assert(all =~= all.drop_last().push(cur@));
    }
    match read_unsigned(&cur, limit) {
        Some(n) => {
            out.push(n);
            Ok(out)
        },
        None => {
            let mut message = joined("invalid value '", string_of(&cur).as_str());
            message.append("' for ");
            message.append(option);
            Err(error(message))
        },
    }
}

/// An option whose value is a floating-point number. Its text is carried through
/// unconverted: conversion and finiteness checks happen where floats are handled.
#[derive(Clone, Copy, Debug, PartialEq, Eq, Structural)]
pub enum FloatOption {
    VRef,
    Voltage,
    RampStart,
    RampEnd,
    NoiseLsb,
}

/// The command-line spelling of a floating-point option.
pub open spec fn float_option_label(option: FloatOption) -> Seq<char> {
    match option {
        FloatOption::VRef => "--vref"@,
        FloatOption::Voltage => "--voltage"@,
        FloatOption::RampStart => "--ramp-start"@,
        FloatOption::RampEnd => "--ramp-end"@,
        FloatOption::NoiseLsb => "--noise-lsb"@,
    }
}

impl FloatOption {
    /// The command-line spelling of this option.
    pub fn name(self) -> (r: &'static str)
        ensures
            r@ == float_option_label(self),
    {
        match self {
            FloatOption::VRef => "--vref",
            FloatOption::Voltage => "--voltage",
            FloatOption::RampStart => "--ramp-start",
            FloatOption::RampEnd => "--ramp-end",
            FloatOption::NoiseLsb => "--noise-lsb",
        }
    }
}

/// A floating-point option and the text given for it.
#[derive(Debug, Clone)]
pub struct FloatArg {
    pub option: FloatOption,
    pub text: String,
}

impl FloatArg {
    /// The error reported when the text is not a number, worded as for integer options.
    pub fn value_error(&self) -> (r: CliError)
        ensures
            r.message@ == invalid_value_message(float_option_label(self.option), self.text@),
    {
        let mut message = joined("invalid value '", self.text.as_str());
        message.append("' for ");
        message.append(self.option.name());
        error(message)
    }
}

impl View for FloatArg {
    type V = (FloatOption, Seq<char>);

    open spec fn view(&self) -> (FloatOption, Seq<char>) {
        (self.option, self.text@)
    }
}

/// What the command line asks for.
#[derive(Debug, Clone)]
pub enum Request {
    Run(Settings),
    Sweep(Settings),
    Help,
    Version,
}

/// Abstract value of [`Request`].
pub enum RequestModel {
    Run(SettingsModel),
    Sweep(SettingsModel),
    Help,
    Version,
}

impl View for Request {
    type V = RequestModel;

    open spec fn view(&self) -> RequestModel {
        match self {
            Request::Run(s) => RequestModel::Run(s@),
            Request::Sweep(s) => RequestModel::Sweep(s@),
            Request::Help => RequestModel::Help,
            Request::Version => RequestModel::Version,
        }
    }
}

/// The outcome of parsing, together with the floating-point options met before
/// parsing stopped, in command-line order.
#[derive(Debug)]
pub struct ParsedArgs {
    pub float_args: Vec<FloatArg>,
    pub outcome: Result<Request, CliError>,
}

/// Abstract value of [`ParsedArgs`].
pub struct ParseModel {
    pub floats: Seq<(FloatOption, Seq<char>)>,
    pub outcome: Result<RequestModel, Seq<char>>,
}

/// The views of a list of floating-point options.
pub open spec fn float_views(v: Seq<FloatArg>) -> Seq<(FloatOption, Seq<char>)> {
    v.map_values(|a: FloatArg| a@)
}

impl View for ParsedArgs {
    type V = ParseModel;

    open spec fn view(&self) -> ParseModel {
        ParseModel {
            floats: float_views(self.float_args@),
            outcome: match self.outcome {
                Ok(q) => Ok(q@),
                Err(e) => Err(e.message@),
            },
        }
    }
}

/// The texts of the command-line arguments.
pub open spec fn arg_texts(args: Seq<String>) -> Seq<Seq<char>> {
    args.map_values(|a: String| a@)
}

/// The options that take a value.
pub open spec fn is_known_option(o: Seq<char>) -> bool {
    ||| o == "--bits"@
    ||| o == "--vref"@
    ||| o == "--samples"@
    ||| o == "--seed"@
    ||| o == "--signal"@
    ||| o == "--voltage"@
    ||| o == "--ramp-start"@
    ||| o == "--ramp-end"@
    ||| o == "--noise"@
    ||| o == "--noise-lsb"@
    ||| o == "--osr"@
    ||| o == "--out"@
    ||| o == "--histogram-bins"@
}

/// A text that looks like an option rather than a value.
pub open spec fn starts_with_dashes(s: Seq<char>) -> bool {
    s.len() >= 2 && s[0] == '-' && s[1] == '-'
}

/// The settings after one option and its value, with the floating-point options
/// recorded so far; or the error message for the value.
pub open spec fn apply_option(
    o: Seq<char>,
    value: Seq<char>,
    st: SettingsModel,
    floats: Seq<(FloatOption, Seq<char>)>,
) -> Result<(SettingsModel, Seq<(FloatOption, Seq<char>)>), Seq<char>> {
    if o == "--bits"@ {
        match number_outcome(o, value, 255) {
            Ok(n) => Ok((SettingsModel { bits: n as u8, ..st }, floats)),
            Err(m) => Err(m),
        }
    } else if o == "--vref"@ {
        Ok((st, floats.push((FloatOption::VRef, value))))
    } else if o == "--samples"@ {
        match number_outcome(o, value, usize::MAX as u64) {
            Ok(n) => Ok((SettingsModel { sample_count: n as usize, ..st }, floats)),
            Err(m) => Err(m),
        }
    } else if o == "--seed"@ {
        match number_outcome(o, value, u64::MAX) {
            Ok(n) => Ok((SettingsModel { seed: n, ..st }, floats)),
            Err(m) => Err(m),
        }
    } else if o == "--voltage"@ {
        Ok((st, floats.push((FloatOption::Voltage, value))))
    } else if o == "--ramp-start"@ {
        Ok((st, floats.push((FloatOption::RampStart, value))))
    } else if o == "--ramp-end"@ {
        Ok((st, floats.push((FloatOption::RampEnd, value))))
    } else if o == "--signal"@ {
        if value == "constant"@ {
            Ok((SettingsModel { signal: SignalShape::Constant, ..st }, floats))
        } else if value == "ramp"@ {
            Ok((SettingsModel { signal: SignalShape::Ramp, ..st }, floats))
        } else {
            Err("invalid --signal '"@ + value + "'"@)
        }
    } else if o == "--noise"@ {
        if value == "none"@ {
            Ok((SettingsModel { noise: NoiseKind::Off, ..st }, floats))
        } else if value == "uniform"@ {
            Ok((SettingsModel { noise: NoiseKind::Uniform, ..st }, floats))
        } else if value == "gaussian"@ {
            Ok((SettingsModel { noise: NoiseKind::Gaussian, ..st }, floats))
        } else {
            Err("invalid --noise '"@ + value + "'"@)
        }
    } else if o == "--noise-lsb"@ {
        Ok((st, floats.push((FloatOption::NoiseLsb, value))))
    } else if o == "--osr"@ {
        match numbers_outcome(o, split_commas(value), usize::MAX as u64) {
            Ok(v) => Ok(
                (
                    SettingsModel { oversampling: v.map_values(|n: u64| n as usize), ..st },
                    floats,
                ),
            ),
            Err(m) => Err(m),
        }
    } else if o == "--out"@ {
        if value.len() == 0 {
            Err("--out must not be empty"@)
        } else {
            Ok((SettingsModel { output_dir: value, ..st }, floats))
        }
    } else {
        match number_outcome(o, value, usize::MAX as u64) {
            Ok(n) => Ok((SettingsModel { histogram_bins: n as usize, ..st }, floats)),
            Err(m) => Err(m),
        }
    }
}

/// Parsing the options from position `i` on, given the settings and the
/// floating-point options gathered before it.
pub open spec fn parse_from(
    args: Seq<Seq<char>>,
    i: int,
    sweep: bool,
    st: SettingsModel,
    floats: Seq<(FloatOption, Seq<char>)>,
) -> ParseModel
    decreases args.len() - i,
{
    if i < 0 || i >= args.len() {
        ParseModel {
            floats,
            outcome: Ok(
                if sweep {
                    RequestModel::Sweep(st)
                } else {
                    RequestModel::Run(st)
                },
            ),
        }
    } else if args[i] == "--help"@ {
        ParseModel { floats, outcome: Ok(RequestModel::Help) }
    } else if args[i] == "--version"@ {
        ParseModel { floats, outcome: Ok(RequestModel::Version) }
    } else if !is_known_option(args[i]) {
        ParseModel {
            floats,
            outcome: Err("unknown option or subcommand '"@ + args[i] + "'"@),
        }
    } else if i + 1 >= args.len() || starts_with_dashes(args[i + 1]) {
        ParseModel { floats, outcome: Err("missing value for "@ + args[i]) }
    } else {
        match apply_option(args[i], args[i + 1], st, floats) {
            Ok((st2, floats2)) => parse_from(args, i + 2, sweep, st2, floats2),
            Err(m) => ParseModel { floats, outcome: Err(m) },
        }
    }
}

/// Parsing a whole command line: a leading `sweep` selects a sweep, then options
/// are read in order from the default settings.
pub open spec fn parse_args(args: Seq<Seq<char>>) -> ParseModel {
    let sweep = args.len() > 0 && args[0] == "sweep"@;
    parse_from(args, if sweep { 1 } else { 0 }, sweep, default_settings(), seq![])
}

/// Records a floating-point option and its text.
fn push_float(floats: &mut Vec<FloatArg>, option: FloatOption, value: &str)
    ensures
        float_views(final(floats)@) == float_views(old(floats)@).push((option, value@)),
{
    floats.push(FloatArg { option, text: String::from_str(value) });
    proof {
        assert(float_views(final(floats)@) =~= float_views(old(floats)@).push((option, value@)));
    }
}

/// The ratios read from a list, as `usize`.
fn to_ratios(v: &Vec<u64>) -> (r: Vec<usize>)
    ensures
        r@ == v@.map_values(|n: u64| n as usize),
{
    let mut r: Vec<usize> = Vec::new();
    for i in 0..v.len()
        invariant
            r@ == v@.take(i as int).map_values(|n: u64| n as usize),
    {
        r.push(v[i] as usize);
        proof {
            assert(v@.take(i + 1).map_values(|n: u64| n as usize) =~= v@.take(i as int).map_values(
                |n: u64| n as usize,
            ).push(v@[i as int] as usize));
        }
    }
    proof {
        assert(v@.take(v@.len() as int) =~= v@);
    }
    r
}

/// Applies one option and its value to the settings (see [`apply_option`]).
fn apply_value(
    o: &Vec<char>,
    option: &str,
    value: &str,
    st: &mut Settings,
    floats: &mut Vec<FloatArg>,
) -> (r: Result<(), CliError>)
    requires
        o@ == option@,
    ensures
        match apply_option(option@, value@, old(st)@, float_views(old(floats)@)) {
            Ok((s2, f2)) => r is Ok && final(st)@ == s2 && float_views(final(floats)@) == f2,
            Err(m) => r matches Err(e) && e.message@ == m && final(floats)@ == old(floats)@,
        },
{
    if is_word(o, "--bits") {
        let n = number(option, value, 255)?;
        st.bits = n as u8;
    } else if is_word(o, "--vref") {
        push_float(floats, FloatOption::VRef, value);
    } else if is_word(o, "--samples") {
        let n = number(option, value, usize::MAX as u64)?;
        st.sample_count = n as usize;
    } else if is_word(o, "--seed") {
        let n = number(option, value, u64::MAX)?;
        st.seed = n;
    } else if is_word(o, "--voltage") {
        push_float(floats, FloatOption::Voltage, value);
    } else if is_word(o, "--ramp-start") {
        push_float(floats, FloatOption::RampStart, value);
    } else if is_word(o, "--ramp-end") {
        push_float(floats, FloatOption::RampEnd, value);
    } else if is_word(o, "--signal") {
        let v = chars_of(value);
        if is_word(&v, "constant") {
            st.signal = SignalShape::Constant;
        } else if is_word(&v, "ramp") {
            st.signal = SignalShape::Ramp;
        } else {
            let mut message = joined("invalid --signal '", value);
            message.append("'");
            return Err(error(message));
        }
    } else if is_word(o, "--noise") {
        let v = chars_of(value);
        if is_word(&v, "none") {
            st.noise = NoiseKind::Off;
        } else if is_word(&v, "uniform") {
            st.noise = NoiseKind::Uniform;
        } else if is_word(&v, "gaussian") {
            st.noise = NoiseKind::Gaussian;
        } else {
            let mut message = joined("invalid --noise '", value);
            message.append("'");
            return Err(error(message));
        }
    } else if is_word(o, "--noise-lsb") {
        push_float(floats, FloatOption::NoiseLsb, value);
    } else if is_word(o, "--osr") {
        let v = numbers(option, value, usize::MAX as u64)?;
        st.oversampling = to_ratios(&v);
    } else if is_word(o, "--out") {
        if value.is_empty() {
            return Err(error(String::from_str("--out must not be empty")));
        }
        st.output_dir = String::from_str(value);
    } else {
        let n = number(option, value, usize::MAX as u64)?;
        st.histogram_bins = n as usize;
    }
    Ok(())
}

/// Whether `o` names an option that takes a value.
fn known_option(o: &Vec<char>) -> (r: bool)
    ensures
        r == is_known_option(o@),
{
    is_word(o, "--bits") || is_word(o, "--vref") || is_word(o, "--samples") || is_word(o, "--seed")
        || is_word(o, "--signal") || is_word(o, "--voltage") || is_word(o, "--ramp-start")
        || is_word(o, "--ramp-end") || is_word(o, "--noise") || is_word(o, "--noise-lsb")
        || is_word(o, "--osr") || is_word(o, "--out") || is_word(o, "--histogram-bins")
}

/// Whether `s` begins with two dashes.
fn dashes(s: &Vec<char>) -> (r: bool)
    ensures
        r == starts_with_dashes(s@),
{
    s.len() >= 2 && s[0] == '-' && s[1] == '-'
}

/// Parses the command-line arguments (without the program name): a leading
/// `sweep` selects a sweep; `--help` and `--version` stop parsing; every other
/// option takes the next argument as its value. Integer values are read here only
/// as numbers of their type; their ranges (bits, sample count, bins, ratios) are
/// checked by [`Settings::validated`](crate::config::Settings::validated), which must
/// pass before a run or sweep request is used. Floating-point values are handed back
/// as text, in order, with the outcome reached after them.
pub fn parse(args: Vec<String>) -> (r: ParsedArgs)
    ensures
        r@ == parse_args(arg_texts(args@)),
{
    let ghost texts = arg_texts(args@);
    let mut sweep = false;
    let mut i: usize = 0;
    if args.len() > 0 {
        let first = chars_of(args[0].as_str());
        if is_word(&first, "sweep") {
            sweep = true;
            i = 1;
        }
    }
    let mut st = Settings::defaults();
    let mut floats: Vec<FloatArg> = Vec::new();
    proof {
        assert(float_views(floats@) =~= seq![]);
    }
    while i < args.len()
        invariant
            texts == arg_texts(args@),
            texts.len() == args.len(),
            i <= args.len(),
            parse_args(texts) == parse_from(texts, i as int, sweep, st@, float_views(floats@)),
        decreases args.len() - i,
    {
        let o = chars_of(args[i].as_str());
        assert(o@ == texts[i as int]);
        if is_word(&o, "--help") {
            return ParsedArgs { float_args: floats, outcome: Ok(Request::Help) };
        }
        if is_word(&o, "--version") {
            return ParsedArgs { float_args: floats, outcome: Ok(Request::Version) };
        }
        if !known_option(&o) {
            let mut message = joined("unknown option or subcommand '", args[i].as_str());
            message.append("'");
            return ParsedArgs { float_args: floats, outcome: Err(error(message)) };
        }
        let missing = if i + 1 >= args.len() {
            true
        } else {
            let v = chars_of(args[i + 1].as_str());
            assert(v@ == texts[i + 1]);
            dashes(&v)
        };
        if missing {
            let message = joined("missing value for ", args[i].as_str());
            return ParsedArgs { float_args: floats, outcome: Err(error(message)) };
        }
        match apply_value(&o, args[i].as_str(), args[i + 1].as_str(), &mut st, &mut floats) {
            Ok(()) => {},
            Err(e) => {
                return ParsedArgs { float_args: floats, outcome: Err(e) };
            },
        }
        i = i + 2;
    }
    let outcome = if sweep {
        Request::Sweep(st)
    } else {
        Request::Run(st)
    };
    ParsedArgs { float_args: floats, outcome: Ok(outcome) }
}

/// The usage text printed for `--help`.
pub open spec fn help_message() -> Seq<char> {
    "adc-oversampling-enob [sweep] [OPTIONS]\n\nSimulate ideal ADC quantization, analog dither, and block averaging.\n\nOptions (defaults in parentheses):\n  --bits <2..=24>                 ADC resolution (12)\n  --vref <volts>                  Positive reference voltage (3.3)\n  --samples <count>               Raw samples (1048576)\n  --seed <u64>                    SplitMix64 seed (42)\n  --signal <constant|ramp>        Signal (constant)\n  --voltage <volts>               Constant voltage (1.234567)\n  --ramp-start <volts>            Inclusive ramp start (0.1)\n  --ramp-end <volts>              Inclusive ramp end (3.2)\n  --noise <none|uniform|gaussian> Noise (gaussian)\n  --noise-lsb <amplitude>         Gaussian sigma / uniform half-width (0.75)\n  --osr <powers-of-two>           Comma-separated factors (1,4,16,64,256)\n  --out <directory>              Output directory (results)\n  --histogram-bins <count>        Histogram bins, at least 2 (80)\n  --help                         Print help\n  --version                      Print version\n\nOSRs are sorted/deduplicated; 1 is inserted as baseline. Every factor must\ndivide the sample count. Sweep overrides --noise-lsb with amplitudes\n0,0.05,0.10,0.25,0.50,0.75,1.00,2.00 and reuses the seed per run.\n"@
}

/// The usage text printed for `--help`.
pub fn help_text() -> (r: &'static str)
    ensures
        r@ == help_message(),
{
    "adc-oversampling-enob [sweep] [OPTIONS]\n\nSimulate ideal ADC quantization, analog dither, and block averaging.\n\nOptions (defaults in parentheses):\n  --bits <2..=24>                 ADC resolution (12)\n  --vref <volts>                  Positive reference voltage (3.3)\n  --samples <count>               Raw samples (1048576)\n  --seed <u64>                    SplitMix64 seed (42)\n  --signal <constant|ramp>        Signal (constant)\n  --voltage <volts>               Constant voltage (1.234567)\n  --ramp-start <volts>            Inclusive ramp start (0.1)\n  --ramp-end <volts>              Inclusive ramp end (3.2)\n  --noise <none|uniform|gaussian> Noise (gaussian)\n  --noise-lsb <amplitude>         Gaussian sigma / uniform half-width (0.75)\n  --osr <powers-of-two>           Comma-separated factors (1,4,16,64,256)\n  --out <directory>              Output directory (results)\n  --histogram-bins <count>        Histogram bins, at least 2 (80)\n  --help                         Print help\n  --version                      Print version\n\nOSRs are sorted/deduplicated; 1 is inserted as baseline. Every factor must\ndivide the sample count. Sweep overrides --noise-lsb with amplitudes\n0,0.05,0.10,0.25,0.50,0.75,1.00,2.00 and reuses the seed per run.\n"
}

/// A noise kind given on the command line by its report name is read back as that
/// kind, with every other setting left at its default.
pub proof fn lemma_noise_name_round_trip(kind: NoiseKind)
    ensures
        parse_args(seq!["--noise"@, noise_label(kind)]) == (ParseModel {
            floats: seq![],
            outcome: Ok(RequestModel::Run(SettingsModel { noise: kind, ..default_settings() })),
        }),
{
    reveal_strlit("--noise");
    reveal_strlit("sweep");
    reveal_strlit("--help");
    reveal_strlit("--version");
    reveal_strlit("--bits");
    reveal_strlit("--vref");
    reveal_strlit("--samples");
    reveal_strlit("--seed");
    reveal_strlit("--voltage");
    reveal_strlit("--ramp-start");
    reveal_strlit("--ramp-end");
    reveal_strlit("--signal");
    reveal_strlit("none");
    reveal_strlit("uniform");
    reveal_strlit("gaussian");
    let args = seq!["--noise"@, noise_label(kind)];
    assert("sweep"@.len() == 5);
    assert(args[0] != "sweep"@);
    assert(args[0] != "--help"@);
    assert(args[0] != "--version"@);
    assert(args[0] != "--bits"@);
    assert(args[0] != "--vref"@);
    assert(args[0] != "--samples"@);
    assert(args[0] != "--seed"@);
    assert(args[0] != "--voltage"@);
    assert(args[0] != "--ramp-start"@);
    assert(args[0] != "--ramp-end"@);
    assert(args[0] != "--signal"@);
    assert(!starts_with_dashes(args[1]));
    assert("none"@.len() == 4);
    assert("none"@ != "uniform"@);
    assert("none"@ != "gaussian"@);
    assert("uniform"@.len() == 7 && "gaussian"@.len() == 8);
    assert("uniform"@ != "gaussian"@);
    let st = default_settings();
    let next = parse_from(args, 2, false, SettingsModel { noise: kind, ..st }, seq![]);
    assert(parse_args(args) == next);
}

/// The decimal spelling of a number consists of digits and reads back as that number.
proof fn lemma_decimal_digits(n: nat)
    ensures
        decimal_text(n).len() > 0,
        forall|i: int| 0 <= i < decimal_text(n).len() ==> is_digit(#[trigger] decimal_text(n)[i]),
        decimal_value(decimal_text(n)) == n,
    decreases n,
{
    let d = (n % 10) as nat;
    assert(digit_char(d) as int == 48 + d);
    assert(digit_value(digit_char(d)) == d);
    assert(decimal_text(n).last() == digit_char(d));
    if n < 10 {
        assert(decimal_text(n).drop_last() =~= Seq::<char>::empty());
        assert(decimal_value(Seq::<char>::empty()) == 0);
    } else {
        lemma_decimal_digits(n / 10);
        let t = decimal_text(n);
        assert(t.drop_last() =~= decimal_text(n / 10));
        assert(n == (n / 10) * 10 + d);
        assert forall|i: int| 0 <= i < t.len() implies is_digit(#[trigger] t[i]) by {
            if i < t.len() - 1 {
                assert(t[i] == decimal_text(n / 10)[i]);
            }
        }
    }
}

/// A number written in decimal, as in validation messages, reads back through
/// [`number`] as that same number whenever it is within the limit.
pub proof fn lemma_decimal_text_reads_back(n: u64, option: Seq<char>, limit: u64)
    requires
        n <= limit,
    ensures
        number_outcome(option, decimal_text(n as nat), limit) == Ok::<u64, Seq<char>>(n),
{
    lemma_decimal_digits(n as nat);
    let t = decimal_text(n as nat);
    assert(is_digit(t[0]));
    assert(unsigned_digits(t) == t);
}

/// The run parse and the sweep parse of the same options, from position `i` of the
/// options on, agree on everything but the request kind.
proof fn lemma_sweep_from(
    rest: Seq<Seq<char>>,
    i: int,
    st: SettingsModel,
    floats: Seq<(FloatOption, Seq<char>)>,
)
    requires
        0 <= i,
    ensures
        ({
            let a = parse_from(rest, i, false, st, floats);
            let b = parse_from(seq!["sweep"@] + rest, i + 1, true, st, floats);
            &&& b.floats == a.floats
            &&& match a.outcome {
                Ok(RequestModel::Run(s2)) => b.outcome == Ok::<RequestModel, Seq<char>>(
                    RequestModel::Sweep(s2),
                ),
                Ok(RequestModel::Sweep(_)) => false,
                o => b.outcome == o,
            }
        }),
    decreases rest.len() - i,
{
    let full = seq!["sweep"@] + rest;
    assert(full.len() == rest.len() + 1);
    if i < rest.len() {
        assert(full[i + 1] == rest[i]);
        if i + 1 < rest.len() {
            assert(full[i + 2] == rest[i + 1]);
            match apply_option(rest[i], rest[i + 1], st, floats) {
                Ok((st2, floats2)) => {
                    lemma_sweep_from(rest, i + 2, st2, floats2);
                },
                Err(_) => {},
            }
        }
    }
}

/// A leading `sweep` asks for a sweep with exactly the settings that the same options
/// give a run: the same floating-point options, the same errors, and `--help` or
/// `--version` answered alike.
pub proof fn lemma_sweep_same_settings(rest: Seq<Seq<char>>)
    requires
        rest.len() == 0 || rest[0] != "sweep"@,
    ensures
        ({
            let a = parse_args(rest);
            let b = parse_args(seq!["sweep"@] + rest);
            &&& b.floats == a.floats
            &&& match a.outcome {
                Ok(RequestModel::Run(s2)) => b.outcome == Ok::<RequestModel, Seq<char>>(
                    RequestModel::Sweep(s2),
                ),
                Ok(RequestModel::Sweep(_)) => false,
                o => b.outcome == o,
            }
        }),
{
    lemma_sweep_from(rest, 0, default_settings(), seq![]);
    assert((seq!["sweep"@] + rest)[0] == "sweep"@);
}

/// The spellings of the options, as far as needed to tell them apart.
proof fn lemma_option_words()
    ensures
        "sweep"@.len() == 5 && "sweep"@[0] == 's',
        "--help"@.len() == 6 && "--help"@[2] == 'h',
        "--version"@.len() == 9 && "--version"@[3] == 'e' && "--version"@[2] == 'v',
        "--bits"@.len() == 6 && "--bits"@[2] == 'b',
        "--vref"@.len() == 6 && "--vref"@[2] == 'v',
        "--samples"@.len() == 9 && "--samples"@[2] == 's',
        "--seed"@.len() == 6 && "--seed"@[2] == 's',
        "--voltage"@.len() == 9 && "--voltage"@[3] == 'o' && "--voltage"@[2] == 'v',
        "--ramp-start"@.len() == 12,
        "--ramp-end"@.len() == 10,
        "--signal"@.len() == 8,
        "--noise"@.len() == 7,
        "--noise-lsb"@.len() == 11,
        "--osr"@.len() == 5 && "--osr"@[0] == '-' && "--osr"@[3] == 's',
        "--out"@.len() == 5 && "--out"@[0] == '-' && "--out"@[3] == 'u',
        "--histogram-bins"@.len() == 16,
{
    reveal_strlit("sweep");
    reveal_strlit("--help");
    reveal_strlit("--version");
    reveal_strlit("--bits");
    reveal_strlit("--vref");
    reveal_strlit("--samples");
    reveal_strlit("--seed");
    reveal_strlit("--voltage");
    reveal_strlit("--ramp-start");
    reveal_strlit("--ramp-end");
    reveal_strlit("--signal");
    reveal_strlit("--noise");
    reveal_strlit("--noise-lsb");
    reveal_strlit("--osr");
    reveal_strlit("--out");
    reveal_strlit("--histogram-bins");
}

/// A single integer option written in decimal sets exactly its own setting to that
/// number, and every other setting keeps its default: `--bits n` (n <= 255),
/// `--samples n`, `--seed n` and `--histogram-bins n`.
pub proof fn lemma_integer_options_set_their_field(n: u64)
    ensures
        n <= 255 ==> parse_args(seq!["--bits"@, decimal_text(n as nat)]) == (ParseModel {
            floats: seq![],
            outcome: Ok(RequestModel::Run(SettingsModel { bits: n as u8, ..default_settings() })),
        }),
        n <= usize::MAX ==> parse_args(seq!["--samples"@, decimal_text(n as nat)]) == (ParseModel {
            floats: seq![],
            outcome: Ok(
                RequestModel::Run(SettingsModel { sample_count: n as usize, ..default_settings() }),
            ),
        }),
        parse_args(seq!["--seed"@, decimal_text(n as nat)]) == (ParseModel {
            floats: seq![],
            outcome: Ok(RequestModel::Run(SettingsModel { seed: n, ..default_settings() })),
        }),
        n <= usize::MAX ==> parse_args(seq!["--histogram-bins"@, decimal_text(n as nat)]) == (
        ParseModel {
            floats: seq![],
            outcome: Ok(
                RequestModel::Run(SettingsModel { histogram_bins: n as usize, ..default_settings() }),
            ),
        }),
{
    lemma_option_words();
    lemma_decimal_digits(n as nat);
    let t = decimal_text(n as nat);
    assert(is_digit(t[0]));
    assert(!starts_with_dashes(t));
    let d = default_settings();
    let e = Seq::<(FloatOption, Seq<char>)>::empty();
    if n <= 255 {
        lemma_decimal_text_reads_back(n, "--bits"@, 255);
        let a = seq!["--bits"@, t];
        assert(a[0] != "sweep"@);
        assert(a[0] != "--help"@);
        assert(a[0] != "--version"@);
        assert(parse_args(a) == parse_from(a, 2, false, SettingsModel { bits: n as u8, ..d }, e));
    }
    if n <= usize::MAX {
        lemma_decimal_text_reads_back(n, "--samples"@, usize::MAX as u64);
        let a = seq!["--samples"@, t];
        assert(a[0] != "sweep"@);
        assert(a[0] != "--help"@);
        assert(a[0] != "--version"@);
        assert(a[0] != "--bits"@);
        assert(a[0] != "--vref"@);
        assert(parse_args(a) == parse_from(a, 2, false, SettingsModel { sample_count: n as usize, ..d }, e));
        lemma_decimal_text_reads_back(n, "--histogram-bins"@, usize::MAX as u64);
        let b = seq!["--histogram-bins"@, t];
        assert(b[0] != "sweep"@);
        assert(b[0] != "--help"@);
        assert(b[0] != "--version"@);
        assert(b[0] != "--bits"@);
        assert(b[0] != "--vref"@);
        assert(b[0] != "--samples"@);
        assert(b[0] != "--seed"@);
        assert(b[0] != "--voltage"@);
        assert(b[0] != "--ramp-start"@);
        assert(b[0] != "--ramp-end"@);
        assert(b[0] != "--signal"@);
        assert(b[0] != "--noise"@);
        assert(b[0] != "--noise-lsb"@);
        assert(b[0] != "--osr"@);
        assert(b[0] != "--out"@);
        assert(parse_args(b) == parse_from(b, 2, false, SettingsModel { histogram_bins: n as usize, ..d }, e));
    }
    lemma_decimal_text_reads_back(n, "--seed"@, u64::MAX);
    let a = seq!["--seed"@, t];
    assert(a[0] != "sweep"@);
    assert(a[0] != "--help"@);
    assert(a[0] != "--version"@);
    assert(a[0] != "--bits"@);
    assert(a[0] != "--vref"@);
    assert(a[0] != "--samples"@);
    assert(parse_args(a) == parse_from(a, 2, false, SettingsModel { seed: n, ..d }, e));
}

/// A text without commas is a single piece.
proof fn lemma_split_no_commas(s: Seq<char>)
    requires
        forall|i: int| 0 <= i < s.len() ==> #[trigger] s[i] != ',',
    ensures
        split_commas(s) == seq![s],
    decreases s.len(),
{
    if s.len() > 0 {
        assert(s.last() != ',');
        assert forall|i: int| 0 <= i < s.drop_last().len() implies #[trigger] s.drop_last()[i]
            != ',' by {
            assert(s.drop_last()[i] == s[i]);
        }
        lemma_split_no_commas(s.drop_last());
        assert(s.drop_last().push(s.last()) =~= s);
        assert(split_commas(s) =~= seq![s]);
    } else {
        assert(s =~= Seq::<char>::empty());
        assert(split_commas(s) =~= seq![s]);
    }
}

/// `--out dir` sets the output directory to `dir` and `--osr n` sets the ratio list
/// to the single ratio `n`; all other settings keep their defaults.
pub proof fn lemma_out_and_osr_set_their_field(dir: Seq<char>, n: u64)
    requires
        dir.len() > 0,
        !starts_with_dashes(dir),
    ensures
        parse_args(seq!["--out"@, dir]) == (ParseModel {
            floats: seq![],
            outcome: Ok(RequestModel::Run(SettingsModel { output_dir: dir, ..default_settings() })),
        }),
        n <= usize::MAX ==> parse_args(seq!["--osr"@, decimal_text(n as nat)]) == (ParseModel {
            floats: seq![],
            outcome: Ok(
                RequestModel::Run(
                    SettingsModel { oversampling: seq![n as usize], ..default_settings() },
                ),
            ),
        }),
{
    lemma_option_words();
    let d = default_settings();
    let e = Seq::<(FloatOption, Seq<char>)>::empty();
    let a = seq!["--out"@, dir];
    assert(a[0] != "sweep"@);
    assert(a[0] != "--help"@);
    assert(a[0] != "--version"@);
    assert(a[0] != "--bits"@);
    assert(a[0] != "--vref"@);
    assert(a[0] != "--samples"@);
    assert(a[0] != "--seed"@);
    assert(a[0] != "--voltage"@);
    assert(a[0] != "--ramp-start"@);
    assert(a[0] != "--ramp-end"@);
    assert(a[0] != "--signal"@);
    assert(a[0] != "--noise"@);
    assert(a[0] != "--noise-lsb"@);
    assert(a[0] != "--osr"@);
    assert(parse_args(a) == parse_from(a, 2, false, SettingsModel { output_dir: dir, ..d }, e));
    if n <= usize::MAX {
        lemma_decimal_digits(n as nat);
        let t = decimal_text(n as nat);
        assert(is_digit(t[0]));
        assert forall|i: int| 0 <= i < t.len() implies #[trigger] t[i] != ',' by {
            assert(is_digit(t[i]));
        }
        lemma_split_no_commas(t);
        lemma_decimal_text_reads_back(n, "--osr"@, usize::MAX as u64);
        let pieces = split_commas(t);
        assert(pieces.drop_last() =~= Seq::<Seq<char>>::empty());
        assert(pieces.last() == t);
        assert(numbers_outcome("--osr"@, pieces.drop_last(), usize::MAX as u64) == Ok::<
            Seq<u64>,
            Seq<char>,
        >(Seq::<u64>::empty()));
        assert(numbers_outcome("--osr"@, pieces, usize::MAX as u64) == Ok::<Seq<u64>, Seq<char>>(
            seq![n],
        )) by {
            assert(Seq::<u64>::empty().push(n) =~= seq![n]);
        }
        assert(seq![n].map_values(|m: u64| m as usize) =~= seq![n as usize]);
        let b = seq!["--osr"@, t];
        assert(b[0] != "sweep"@);
        assert(b[0] != "--help"@);
        assert(b[0] != "--version"@);
        assert(b[0] != "--bits"@);
        assert(b[0] != "--vref"@);
        assert(b[0] != "--samples"@);
        assert(b[0] != "--seed"@);
        assert(b[0] != "--voltage"@);
        assert(b[0] != "--ramp-start"@);
        assert(b[0] != "--ramp-end"@);
        assert(b[0] != "--signal"@);
        assert(b[0] != "--noise"@);
        assert(b[0] != "--noise-lsb"@);
        assert(parse_args(b) == parse_from(
            b,
            2,
            false,
            SettingsModel { oversampling: seq![n as usize], ..d },
            e,
        ));
    }
}

} // verus!
