//! The command-line surface: the argument scan that gathers the user
//! configuration, its error taxonomy, and the validation of the numeric
//! flag values. Every failure is reported as a structured error to one
//! top-level caller, which alone decides how the process ends — no partial
//! configuration ever escapes.

use vstd::prelude::*;
use crate::shared::{Parameters, SampleFormat, Vector};
use crate::text::{
    all_digits, chars_of, is_digit, is_digit_char, lowered, lower_chars, parse_u64_digits,
    parse_u64_spec, str_eq,
};
use crate::util::hertz_spec;
use vstd::slice::slice_subrange;

verus! {

// ------------------------------------------------------------------
// Validation of the numeric flag values.
// ------------------------------------------------------------------

/// What parsing a width or height yields: a non-negative decimal that must
/// fit the 32-bit signed range.
pub open spec fn dimension_spec(t: Seq<char>) -> Option<i32> {
    match parse_u64_spec(t) {
        Some(v) => if v <= i32::MAX as u64 {
            Some(v as i32)
        } else {
            None
        },
        None => None,
    }
}

/// Parses a width or height, exactly as `dimension_spec` states.
pub fn parse_dimension(t: &str) -> (r: Option<i32>)
    ensures
        r == dimension_spec(t@),
{
    let cs = chars_of(t);
    match parse_u64_digits(cs.as_slice()) {
        Some(v) => if v <= i32::MAX as u64 {
            Some(v as i32)
        } else {
            None
        },
        None => None,
    }
}

/// The index of the first `e` in `t`, or `-1` when there is none.
pub open spec fn first_e(t: Seq<char>) -> int
    decreases t.len(),
{
    if t.len() == 0 {
        -1
    } else if t[0] == 'e' {
        0
    } else {
        let r = first_e(t.skip(1));
        if r == -1 {
            -1
        } else {
            r + 1
        }
    }
}

proof fn lemma_first_e_at(t: Seq<char>, i: int)
    requires
        0 <= i < t.len(),
        t[i] == 'e',
        forall|j: int| 0 <= j < i ==> t[j] != 'e',
    ensures
        first_e(t) == i,
    decreases i,
{
    if i > 0 {
        lemma_first_e_at(t.skip(1), i - 1);
    }
}

proof fn lemma_first_e_none(t: Seq<char>)
    requires
        forall|j: int| 0 <= j < t.len() ==> t[j] != 'e',
    ensures
        first_e(t) == -1,
    decreases t.len(),
{
    if t.len() > 0 {
        lemma_first_e_none(t.skip(1));
    }
}

/// The number of `.` characters in `m`.
pub open spec fn dot_count(m: Seq<char>) -> nat
    decreases m.len(),
{
    if m.len() == 0 {
        0
    } else {
        dot_count(m.drop_last()) + if m.last() == '.' {
            1 as nat
        } else {
            0 as nat
        }
    }
}

/// The number of decimal digits in `m`.
pub open spec fn digit_count(m: Seq<char>) -> nat
    decreases m.len(),
{
    if m.len() == 0 {
        0
    } else {
        digit_count(m.drop_last()) + if is_digit(m.last()) {
            1 as nat
        } else {
            0 as nat
        }
    }
}

/// Every character of `m` is a digit or a `.`.
pub open spec fn digits_or_dots(m: Seq<char>) -> bool {
    forall|i: int| 0 <= i < m.len() ==> is_digit(#[trigger] m[i]) || m[i] == '.'
}

/// A valid mantissa: digits with at most one fractional separator anywhere,
/// and at least one digit.
pub open spec fn is_mantissa(m: Seq<char>) -> bool {
    digits_or_dots(m) && dot_count(m) <= 1 && digit_count(m) >= 1
}

/// A valid exponent: an optional sign followed by at least one digit.
pub open spec fn is_exponent(x: Seq<char>) -> bool {
    let y = if x.len() > 0 && (x[0] == '+' || x[0] == '-') {
        x.skip(1)
    } else {
        x
    };
    y.len() >= 1 && all_digits(y)
}

/// One of the special floating-point words, already lower-cased.
pub open spec fn is_special_float(t: Seq<char>) -> bool {
    t == seq!['i', 'n', 'f'] || t == seq!['i', 'n', 'f', 'i', 'n', 'i', 't', 'y'] || t == seq![
        'n',
        'a',
        'n',
    ]
}

/// A valid floating-point literal for the framerate flag, following the
/// grammar of Rust's standard decimal-to-float conversion: an optional sign,
/// then `inf`, `infinity`, `nan` (any case), or a mantissa with an optional
/// `e`-exponent.
pub open spec fn is_float_literal(s: Seq<char>) -> bool {
    let w = lowered(s);
    let t = if w.len() > 0 && (w[0] == '+' || w[0] == '-') {
        w.skip(1)
    } else {
        w
    };
    is_special_float(t) || ({
        let e = first_e(t);
        if e >= 0 {
            is_mantissa(t.take(e)) && is_exponent(t.skip(e + 1))
        } else {
            is_mantissa(t)
        }
    })
}

/// Decides `is_mantissa`.
fn mantissa_ok(m: &[char]) -> (r: bool)
    ensures
        r == is_mantissa(m@),
{
    let ghost mq = m@;
    let mut dots: u64 = 0;
    let mut digits: u64 = 0;
    let mut i: usize = 0;
    while i < m.len()
        invariant
            m@ == mq,
            i <= mq.len(),
            digits_or_dots(mq.take(i as int)),
            dots == dot_count(mq.take(i as int)),
            digits == digit_count(mq.take(i as int)),
            dots <= i,
            digits <= i,
        decreases mq.len() - i,
    {
        let c = m[i];
        proof {
            assert(mq.take(i + 1).drop_last() =~= mq.take(i as int));
            assert(mq.take(i + 1).last() == mq[i as int]);
        }
        if c == '.' {
            dots = dots + 1;
        } else if is_digit_char(c) {
            digits = digits + 1;
        } else {
            assert(!digits_or_dots(mq));
            return false;
        }
        i += 1;
    }
    proof {
        assert(mq.take(mq.len() as int) =~= mq);
    }
    dots <= 1 && digits >= 1
}

/// Decides `is_exponent`.
fn exponent_ok(x: &[char]) -> (r: bool)
    ensures
        r == is_exponent(x@),
{
    let ghost xq = x@;
    let mut st: usize = 0;
    if x.len() > 0 && (x[0] == '+' || x[0] == '-') {
        st = 1;
    }
    let ghost y = if xq.len() > 0 && (xq[0] == '+' || xq[0] == '-') {
        xq.skip(1)
    } else {
        xq
    };
    if x.len() == st {
        assert(y.len() == 0);
        return false;
    }
    let mut j: usize = st;
    while j < x.len()
        invariant
            x@ == xq,
            st <= j <= xq.len(),
            st <= 1,
            y == (if xq.len() > 0 && (xq[0] == '+' || xq[0] == '-') {
                xq.skip(1)
            } else {
                xq
            }),
            y.len() == xq.len() - st,
            forall|j2: int| st <= j2 < j ==> is_digit(#[trigger] xq[j2]),
        decreases xq.len() - j,
    {
        if !is_digit_char(x[j]) {
            assert(y[j - st] == xq[j as int]);
            assert(!all_digits(y));
            return false;
        }
        j += 1;
    }
    proof {
        assert forall|j2: int| 0 <= j2 < y.len() implies is_digit(y[j2]) by {
            assert(y[j2] == xq[j2 + st]);
        }
    }
    true
}

/// Decides `is_float_literal`.
pub fn is_float_text(s: &str) -> (r: bool)
    ensures
        r == is_float_literal(s@),
{
    let w = lower_chars(s);
    let ghost wq = w@;
    let mut tstart: usize = 0;
    if w.len() > 0 && (w[0] == '+' || w[0] == '-') {
        tstart = 1;
    }
    let t = slice_subrange(w.as_slice(), tstart, w.len());
    let ghost tq = if wq.len() > 0 && (wq[0] == '+' || wq[0] == '-') {
        wq.skip(1)
    } else {
        wq
    };
    proof {
        assert(t@ =~= tq);
    }
    let tl = t.len();
    if tl == 3 && t[0] == 'i' && t[1] == 'n' && t[2] == 'f' {
        proof {
            assert(tq =~= seq!['i', 'n', 'f']);
        }
        return true;
    }
    if tl == 8 && t[0] == 'i' && t[1] == 'n' && t[2] == 'f' && t[3] == 'i' && t[4] == 'n' && t[5]
        == 'i' && t[6] == 't' && t[7] == 'y' {
        proof {
            assert(tq =~= seq!['i', 'n', 'f', 'i', 'n', 'i', 't', 'y']);
        }
        return true;
    }
    if tl == 3 && t[0] == 'n' && t[1] == 'a' && t[2] == 'n' {
        proof {
            assert(tq =~= seq!['n', 'a', 'n']);
        }
        return true;
    }
    proof {
        assert(!is_special_float(tq)) by {
            assert(seq!['i', 'n', 'f'].len() == 3 && seq!['i', 'n', 'f', 'i', 'n', 'i', 't', 'y']
                .len() == 8 && seq!['n', 'a', 'n'].len() == 3);
        }
    }
    let mut i: usize = 0;
    while i < tl && t[i] != 'e'
        invariant
            t@ == tq,
            tl == tq.len(),
            i <= tl,
            forall|j: int| 0 <= j < i ==> tq[j] != 'e',
        decreases tl - i,
    {
        i += 1;
    }
    if i < tl {
        proof {
            lemma_first_e_at(tq, i as int);
        }
        let m = slice_subrange(t, 0, i);
        let x = slice_subrange(t, i + 1, tl);
        proof {
            assert(m@ =~= tq.take(i as int));
            assert(x@ =~= tq.skip(i as int + 1));
        }
        let mok = mantissa_ok(m);
        let xok = exponent_ok(x);
        mok && xok
    } else {
        proof {
            lemma_first_e_none(tq);
        }
        mantissa_ok(t)
    }
}

// ------------------------------------------------------------------
// The gathered configuration and its mathematical model.
// ------------------------------------------------------------------

/// The user configuration gathered from the argument list. The framerate is
/// kept as its validated decimal text; the boundary record converts it to a
/// double-precision number. The sample-format tag has no flag of its own on
/// this surface, so it always carries its default.
pub struct CliConfig {
    pub expression: Option<Vec<u8>>,
    pub file_name: Option<String>,
    pub width: i32,
    pub height: i32,
    pub lossless: bool,
    pub fixed_fps: bool,
    pub fps: String,
    pub sample_rate: u64,
    pub sample_format: SampleFormat,
}

/// The model of `CliConfig`: the same fields over sequences.
pub struct ConfigModel {
    pub expression: Option<Seq<u8>>,
    pub file_name: Option<Seq<char>>,
    pub width: i32,
    pub height: i32,
    pub lossless: bool,
    pub fixed_fps: bool,
    pub fps: Seq<char>,
    pub sample_rate: u64,
    pub sample_format: SampleFormat,
}

/// The contents of an optional byte vector.
pub open spec fn bytes_view(o: Option<Vec<u8>>) -> Option<Seq<u8>> {
    match o {
        Some(v) => Some(v@),
        None => None,
    }
}

/// The characters of an optional string.
pub open spec fn name_view(o: Option<String>) -> Option<Seq<char>> {
    match o {
        Some(s) => Some(s@),
        None => None,
    }
}

impl View for CliConfig {
    type V = ConfigModel;

    open spec fn view(&self) -> ConfigModel {
        ConfigModel {
            expression: bytes_view(self.expression),
            file_name: name_view(self.file_name),
            width: self.width,
            height: self.height,
            lossless: self.lossless,
            fixed_fps: self.fixed_fps,
            fps: self.fps@,
            sample_rate: self.sample_rate,
            sample_format: self.sample_format,
        }
    }
}

/// How an argument scan ends when it does not fail: either the help text is
/// requested, or a full configuration is gathered.
pub enum CliOutcome {
    Help,
    Config(CliConfig),
}

/// The model of `CliOutcome`.
pub enum OutcomeModel {
    Help,
    Config(ConfigModel),
}

impl View for CliOutcome {
    type V = OutcomeModel;

    open spec fn view(&self) -> OutcomeModel {
        match self {
            CliOutcome::Help => OutcomeModel::Help,
            CliOutcome::Config(c) => OutcomeModel::Config(c@),
        }
    }
}

/// The usage errors of the argument scan, each holding the text it reports.
pub enum CliError {
    /// A flag that requires a value stood last.
    MissingValue { flag: String },
    /// Both an inline expression and a script file were given.
    ConflictingSource,
    /// An unknown flag.
    InvalidFlag { flag: String },
    /// A width that is not a non-negative 32-bit decimal.
    InvalidWidth { text: String },
    /// A height that is not a non-negative 32-bit decimal.
    InvalidHeight { text: String },
    /// A framerate that is not a floating-point literal.
    InvalidFramerate { text: String },
    /// A sample rate that no frequency form matches.
    InvalidSampleRate { text: String },
}

/// The model of `CliError`.
pub enum ErrorModel {
    MissingValue { flag: Seq<char> },
    ConflictingSource,
    InvalidFlag { flag: Seq<char> },
    InvalidWidth { text: Seq<char> },
    InvalidHeight { text: Seq<char> },
    InvalidFramerate { text: Seq<char> },
    InvalidSampleRate { text: Seq<char> },
}

impl View for CliError {
    type V = ErrorModel;

    open spec fn view(&self) -> ErrorModel {
        match self {
            CliError::MissingValue { flag } => ErrorModel::MissingValue { flag: flag@ },
            CliError::ConflictingSource => ErrorModel::ConflictingSource,
            CliError::InvalidFlag { flag } => ErrorModel::InvalidFlag { flag: flag@ },
            CliError::InvalidWidth { text } => ErrorModel::InvalidWidth { text: text@ },
            CliError::InvalidHeight { text } => ErrorModel::InvalidHeight { text: text@ },
            CliError::InvalidFramerate { text } => ErrorModel::InvalidFramerate { text: text@ },
            CliError::InvalidSampleRate { text } => ErrorModel::InvalidSampleRate { text: text@ },
        }
    }
}

// ------------------------------------------------------------------
// The argument scan.
// ------------------------------------------------------------------

/// The configuration before any argument is read: the defaults.
pub open spec fn init_config() -> ConfigModel {
    ConfigModel {
        expression: None,
        file_name: None,
        width: 1080,
        height: 720,
        lossless: true,
        fixed_fps: true,
        fps: "60"@,
        sample_rate: 48000,
        sample_format: SampleFormat::s16,
    }
}

/// The argument scan from position `i` onwards, left to right, starting in
/// configuration `st`: each flag updates one field, the first violation ends
/// the scan with its error, and a help flag ends it at once.
pub open spec fn scan(args: Seq<String>, i: int, st: ConfigModel) -> Result<
    OutcomeModel,
    ErrorModel,
>
    decreases args.len() - i,
{
    if i < 0 || i >= args.len() {
        Ok(OutcomeModel::Config(st))
    } else {
        let a = args[i]@;
        if a == "--help"@ || a == "-h"@ {
            Ok(OutcomeModel::Help)
        } else if a == "--expression"@ || a == "--expr"@ || a == "-E"@ {
            if i + 1 >= args.len() {
                Err(ErrorModel::MissingValue { flag: a })
            } else if st.file_name is Some || st.expression is Some {
                Err(ErrorModel::ConflictingSource)
            } else {
                scan(
                    args,
                    i + 2,
                    ConfigModel {
                        expression: Some(vstd::utf8::encode_utf8(args[i + 1]@)),
                        ..st
                    },
                )
            }
        } else if a == "--width"@ || a == "-w"@ {
            if i + 1 >= args.len() {
                Err(ErrorModel::MissingValue { flag: a })
            } else {
                match dimension_spec(args[i + 1]@) {
                    Some(v) => scan(args, i + 2, ConfigModel { width: v, ..st }),
                    None => Err(ErrorModel::InvalidWidth { text: args[i + 1]@ }),
                }
            }
        } else if a == "--height"@ || a == "-H"@ {
            if i + 1 >= args.len() {
                Err(ErrorModel::MissingValue { flag: a })
            } else {
                match dimension_spec(args[i + 1]@) {
                    Some(v) => scan(args, i + 2, ConfigModel { height: v, ..st }),
                    None => Err(ErrorModel::InvalidHeight { text: args[i + 1]@ }),
                }
            }
        } else if a == "--lossless"@ {
            scan(args, i + 1, ConfigModel { lossless: true, ..st })
        } else if a == "--no-lossless"@ {
            scan(args, i + 1, ConfigModel { lossless: false, ..st })
        } else if a == "--fixed-framerate"@ || a == "--fixed-fps"@ {
            scan(args, i + 1, ConfigModel { fixed_fps: true, ..st })
        } else if a == "--mixed-framerate"@ || a == "--mixed-fps"@ {
            scan(args, i + 1, ConfigModel { fixed_fps: false, ..st })
        } else if a == "--framerate"@ || a == "--fps"@ {
            if i + 1 >= args.len() {
                Err(ErrorModel::MissingValue { flag: a })
            } else if is_float_literal(args[i + 1]@) {
                scan(args, i + 2, ConfigModel { fps: args[i + 1]@, ..st })
            } else {
                Err(ErrorModel::InvalidFramerate { text: args[i + 1]@ })
            }
        } else if a == "--sample-rate"@ || a == "--sr"@ {
            if i + 1 >= args.len() {
                Err(ErrorModel::MissingValue { flag: a })
            } else {
                match hertz_spec(args[i + 1]@) {
                    Some(v) => scan(args, i + 2, ConfigModel { sample_rate: v, ..st }),
                    None => Err(ErrorModel::InvalidSampleRate { text: args[i + 1]@ }),
                }
            }
        } else if a.len() > 0 && a[0] == '-' {
            Err(ErrorModel::InvalidFlag { flag: a })
        } else if st.file_name is Some || st.expression is Some {
            Err(ErrorModel::ConflictingSource)
        } else {
            scan(args, i + 1, ConfigModel { file_name: Some(a), ..st })
        }
    }
}

/// What the whole argument scan yields, from the defaults.
pub open spec fn parse_args_spec(args: Seq<String>) -> Result<OutcomeModel, ErrorModel> {
    scan(args, 0, init_config())
}

/// Scans the argument list left to right, exactly as `parse_args_spec`
/// states: the first violation is reported as its error and nothing partial
/// escapes; otherwise the help request or the fully gathered configuration
/// comes back.
pub fn parse_args(args: &Vec<String>) -> (r: Result<CliOutcome, CliError>)
    ensures
        match r {
            Ok(o) => parse_args_spec(args@) matches Ok(m) && o@ == m,
            Err(e) => parse_args_spec(args@) matches Err(m) && e@ == m,
        },
{
    let mut expression: Option<Vec<u8>> = None;
    let mut file_name: Option<String> = None;
    let mut width: i32 = 1080;
    let mut height: i32 = 720;
    let mut lossless: bool = true;
    let mut fixed_fps: bool = true;
    let mut fps: String = "60".to_owned();
    let mut sample_rate: u64 = 48000;
    let sample_format = SampleFormat::s16;

    let mut i: usize = 0;
    while i < args.len()
        invariant
            i <= args@.len(),
            parse_args_spec(args@) == scan(
                args@,
                i as int,
                (ConfigModel {
                    expression: bytes_view(expression),
                    file_name: name_view(file_name),
                    width: width,
                    height: height,
                    lossless: lossless,
                    fixed_fps: fixed_fps,
                    fps: fps@,
                    sample_rate: sample_rate,
                    sample_format: sample_format,
                }),
            ),
            sample_format == SampleFormat::s16,
        decreases args@.len() - i,
    {
        let a = &args[i];
        let a_s = a.as_str();
        if str_eq(a_s, "--help") || str_eq(a_s, "-h") {
            return Ok(CliOutcome::Help);
        } else if str_eq(a_s, "--expression") || str_eq(a_s, "--expr") || str_eq(a_s, "-E") {
            if i + 1 >= args.len() {
                return Err(CliError::MissingValue { flag: a.clone() });
            }
            if file_name.is_some() || expression.is_some() {
                return Err(CliError::ConflictingSource);
            }
            expression = Some(args[i + 1].as_str().as_bytes_vec());
            i = i + 2;
        } else if str_eq(a_s, "--width") || str_eq(a_s, "-w") {
            if i + 1 >= args.len() {
                return Err(CliError::MissingValue { flag: a.clone() });
            }
            match parse_dimension(args[i + 1].as_str()) {
                Some(v) => {
                    width = v;
                    i = i + 2;
                },
                None => {
                    return Err(CliError::InvalidWidth { text: args[i + 1].clone() });
                },
            }
        } else if str_eq(a_s, "--height") || str_eq(a_s, "-H") {
            if i + 1 >= args.len() {
                return Err(CliError::MissingValue { flag: a.clone() });
            }
            match parse_dimension(args[i + 1].as_str()) {
                Some(v) => {
                    height = v;
                    i = i + 2;
                },
                None => {
                    return Err(CliError::InvalidHeight { text: args[i + 1].clone() });
                },
            }
        } else if str_eq(a_s, "--lossless") {
            lossless = true;
            i = i + 1;
        } else if str_eq(a_s, "--no-lossless") {
            lossless = false;
            i = i + 1;
        } else if str_eq(a_s, "--fixed-framerate") || str_eq(a_s, "--fixed-fps") {
            fixed_fps = true;
            i = i + 1;
        } else if str_eq(a_s, "--mixed-framerate") || str_eq(a_s, "--mixed-fps") {
            fixed_fps = false;
            i = i + 1;
        } else if str_eq(a_s, "--framerate") || str_eq(a_s, "--fps") {
            if i + 1 >= args.len() {
                return Err(CliError::MissingValue { flag: a.clone() });
            }
            if is_float_text(args[i + 1].as_str()) {
                fps = args[i + 1].clone();
                i = i + 2;
            } else {
                return Err(CliError::InvalidFramerate { text: args[i + 1].clone() });
            }
        } else if str_eq(a_s, "--sample-rate") || str_eq(a_s, "--sr") {
            if i + 1 >= args.len() {
                return Err(CliError::MissingValue { flag: a.clone() });
            }
            match crate::util::parse_hertz(args[i + 1].as_str()) {
                Some(v) => {
                    sample_rate = v;
                    i = i + 2;
                },
                None => {
                    return Err(CliError::InvalidSampleRate { text: args[i + 1].clone() });
                },
            }
        } else if !a_s.is_empty() && a_s.get_char(0) == '-' {
            return Err(CliError::InvalidFlag { flag: a.clone() });
        } else {
            if file_name.is_some() || expression.is_some() {
                return Err(CliError::ConflictingSource);
            }
            file_name = Some(a.clone());
            i = i + 1;
        }
    }
    Ok(
        CliOutcome::Config(
            CliConfig {
                expression,
                file_name,
                width,
                height,
                lossless,
                fixed_fps,
                fps,
                sample_rate,
                sample_format,
            },
        ),
    )
}

impl CliConfig {
    /// The script file to load: the named file, or the fixed default when
    /// neither an expression nor a file was given; nothing when an inline
    /// expression was supplied.
    pub fn file_to_load(&self) -> (r: Option<String>)
        ensures
            self@.expression is Some ==> r is None,
            self@.expression is None && self@.file_name is Some ==> (r matches Some(f) && Some(f@)
                == self@.file_name),
            self@.expression is None && self@.file_name is None ==> (r matches Some(f) && f@
                == "default.vcat"@),
    {
        match &self.expression {
            Some(_) => None,
            None => match &self.file_name {
                Some(f) => Some(f.clone()),
                None => Some("default.vcat".to_owned()),
            },
        }
    }
}

/// Assembles the parameter record from a gathered configuration and the
/// script bytes — the inline expression, or the loaded file contents. The
/// record comes back fully populated and owned by the producer.
pub fn build_parameters(cfg: CliConfig, script: Vec<u8>) -> (r: Parameters)
    ensures
        r.wf(),
        r.expression@ == script@,
        r.width == cfg.width,
        r.height == cfg.height,
        r.lossless == cfg.lossless,
        r.fixed_fps == cfg.fixed_fps,
        r.fps@ == cfg.fps@,
        r.sample_rate == cfg.sample_rate,
        r.sample_format == cfg.sample_format,
{
    Parameters {
        expression: Vector::from_bytes(script),
        width: cfg.width,
        height: cfg.height,
        lossless: cfg.lossless,
        fixed_fps: cfg.fixed_fps,
        fps: cfg.fps,
        sample_rate: cfg.sample_rate,
        sample_format: cfg.sample_format,
    }
}

} // verus!
