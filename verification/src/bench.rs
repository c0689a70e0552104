//! The benchmark driver's decisions: its command line, the setup each
//! action needs, and how it reports numbers.

use vstd::prelude::*;
use vstd::string::StringExecFns;
use crate::json::{Json, member_str, member_string};
use crate::text::{chars_of, decimal, ids, push_decimal, str_eq};

verus! {

// ------------------------------------------------------------------ numbers

pub open spec fn is_digit(c: char) -> bool {
    '0' <= c && c <= '9'
}

/// The value of a string of decimal digits.
pub open spec fn digits_value(s: Seq<char>) -> nat
    decreases s.len(),
{
    if s.len() == 0 {
        0
    } else {
        digits_value(s.drop_last()) * 10 + ((s.last() as u32 - 48) as nat)
    }
}

/// The digits of a number as `usize::from_str` reads it: an optional `+`,
/// then at least one decimal digit.
pub open spec fn number_digits(s: Seq<char>) -> Seq<char> {
    if s.len() > 0 && s[0] == '+' {
        s.drop_first()
    } else {
        s
    }
}

/// What `usize::from_str` gives for `s`: its value when `s` is an optional
/// `+` followed by decimal digits whose value fits a `usize`.
pub open spec fn parse_usize(s: Seq<char>) -> Option<usize> {
    let d = number_digits(s);
    if d.len() > 0 && (forall|i: int| 0 <= i < d.len() ==> is_digit(#[trigger] d[i])) && digits_value(d)
        <= usize::MAX {
        Some(digits_value(d) as usize)
    } else {
        None
    }
}

/// Reads a `usize` the way `usize::from_str` does; see [`parse_usize`].
pub fn parse_usize_str(s: &str) -> (res: Option<usize>)
    ensures
        res == parse_usize(s@),
{
    let chars = chars_of(s);
    let mut start: usize = 0;
    if chars.len() > 0 && chars[0] == '+' {
        start = 1;
    }
    let ghost d = number_digits(s@);
    assert(d =~= chars@.subrange(start as int, chars@.len() as int));
    if start == chars.len() {
        return None;
    }
    let mut value: usize = 0;
    let mut i: usize = start;
    while i < chars.len()
        invariant
            start <= i <= chars@.len(),
            chars@ == s@,
            d == number_digits(s@),
            d.len() > 0,
            d == chars@.subrange(start as int, chars@.len() as int),
            forall|k: int| 0 <= k < i - start ==> is_digit(#[trigger] d[k]),
            value == digits_value(d.take(i - start)),
        decreases chars@.len() - i,
    {
        let c = chars[i];
        assert(d[i - start] == c);
        if !('0' <= c && c <= '9') {
            assert(!is_digit(d[i - start]));
            return None;
        }
        let digit = (c as u32 - 48) as usize;
        assert(d.take(i - start + 1).drop_last() =~= d.take(i - start));
        if value > (usize::MAX - digit) / 10 {
            proof {
                let k = i - start + 1;
                assert(digits_value(d.take(k)) == value * 10 + digit);
                assert(value * 10 + digit > usize::MAX) by (nonlinear_arith)
                    requires
                        value > (usize::MAX - digit) / 10,
                        digit <= 9,
                ;
                if forall|j: int| 0 <= j < d.len() ==> is_digit(#[trigger] d[j]) {
                    lemma_digits_grow(d, k, d.len() as int);
                    assert(d.take(d.len() as int) =~= d);
                }
            }
            return None;
        }
        value = value * 10 + digit;
        i = i + 1;
    }
    assert(d.take(d.len() as int) =~= d);
    Some(value)
}

/// A longer prefix of a digit string never has a smaller value.
proof fn lemma_digits_grow(d: Seq<char>, n: int, m: int)
    requires
        0 <= n <= m <= d.len(),
        forall|k: int| 0 <= k < m ==> is_digit(#[trigger] d[k]),
    ensures
        digits_value(d.take(n)) <= digits_value(d.take(m)),
    decreases m - n,
{
    if n < m {
        lemma_digits_grow(d, n, m - 1);
        assert(d.take(m).drop_last() =~= d.take(m - 1));
        assert(is_digit(d[m - 1]));
    }
}

// ------------------------------------------------------------------ command line

/// The benchmark's settings.
pub struct BenchConfig {
    /// Fixture sizes: how many panes the host lists.
    pub sizes: Vec<usize>,
    /// The actions and events to time.
    pub actions: Vec<String>,
    pub iterations: usize,
    pub warmup: usize,
    pub output_dir: String,
}

/// What the command line asks for.
pub enum Invocation {
    Run(BenchConfig),
    /// Print the usage and stop.
    Help,
}

/// Why a command line is refused.
#[derive(Debug)]
pub enum ArgError {
    UnknownArgument(String),
    /// `--output-dir` ends the command line.
    NeedsPath,
    /// A list option is followed by no value; the option's name.
    NeedsValues(String),
    /// A number option ends the command line; the option's name.
    NeedsValue(String),
    /// The option's name and a value that is not a number.
    InvalidValue(String, String),
    /// No size or no action is left.
    EmptyLists,
}

/// Model of [`BenchConfig`].
pub struct ConfigModel {
    pub sizes: Seq<usize>,
    pub actions: Seq<Seq<char>>,
    pub iterations: usize,
    pub warmup: usize,
    pub output_dir: Seq<char>,
}

/// Model of [`Invocation`].
pub enum InvocationModel {
    Run(ConfigModel),
    Help,
}

/// Model of [`ArgError`].
pub enum ArgFailure {
    UnknownArgument(Seq<char>),
    NeedsPath,
    NeedsValues(Seq<char>),
    NeedsValue(Seq<char>),
    InvalidValue(Seq<char>, Seq<char>),
    EmptyLists,
}

impl View for BenchConfig {
    type V = ConfigModel;

    open spec fn view(&self) -> ConfigModel {
        ConfigModel {
            sizes: self.sizes@,
            actions: ids(self.actions@),
            iterations: self.iterations,
            warmup: self.warmup,
            output_dir: self.output_dir@,
        }
    }
}

impl View for Invocation {
    type V = InvocationModel;

    open spec fn view(&self) -> InvocationModel {
        match self {
            Invocation::Run(c) => InvocationModel::Run(c@),
            Invocation::Help => InvocationModel::Help,
        }
    }
}

impl View for ArgError {
    type V = ArgFailure;

    open spec fn view(&self) -> ArgFailure {
        match self {
            ArgError::UnknownArgument(a) => ArgFailure::UnknownArgument(a@),
            ArgError::NeedsPath => ArgFailure::NeedsPath,
            ArgError::NeedsValues(n) => ArgFailure::NeedsValues(n@),
            ArgError::NeedsValue(n) => ArgFailure::NeedsValue(n@),
            ArgError::InvalidValue(n, v) => ArgFailure::InvalidValue(n@, v@),
            ArgError::EmptyLists => ArgFailure::EmptyLists,
        }
    }
}

impl ArgError {
    /// The message to show for this error.
    pub fn message(&self) -> (res: String)
        ensures
            res@ == match self {
                ArgError::UnknownArgument(a) => "unknown argument: "@ + a@,
                ArgError::NeedsPath => "--output-dir needs a path"@,
                ArgError::NeedsValues(n) => "--"@ + n@ + " needs at least one value"@,
                ArgError::NeedsValue(n) => "--"@ + n@ + " needs a value"@,
                ArgError::InvalidValue(n, v) => "invalid "@ + n@ + " value: "@ + v@,
                ArgError::EmptyLists => "sizes and actions must not be empty"@,
            },
    {
        match self {
            ArgError::UnknownArgument(a) => "unknown argument: ".to_string().concat(a.as_str()),
            ArgError::NeedsPath => "--output-dir needs a path".to_string(),
            ArgError::NeedsValues(n) => "--".to_string().concat(n.as_str()).concat(" needs at least one value"),
            ArgError::NeedsValue(n) => "--".to_string().concat(n.as_str()).concat(" needs a value"),
            ArgError::InvalidValue(n, v) => "invalid ".to_string().concat(n.as_str()).concat(" value: ").concat(v.as_str()),
            ArgError::EmptyLists => "sizes and actions must not be empty".to_string(),
        }
    }
}

/// Whether an argument is an option rather than a value.
pub open spec fn is_option(arg: Seq<char>) -> bool {
    arg.len() > 0 && arg[0] == '-'
}

/// Where the run of values that starts at `pos` ends: at the first option
/// from `pos` on, or at the end.
pub open spec fn run_end(args: Seq<Seq<char>>, pos: int) -> int
    decreases args.len() - pos,
{
    if pos >= args.len() || is_option(args[pos]) {
        pos
    } else {
        run_end(args, pos + 1)
    }
}

/// The run of values from `pos` stays within the arguments and holds no option.
pub proof fn lemma_run_end_bounds(args: Seq<Seq<char>>, pos: int)
    requires
        0 <= pos <= args.len(),
    ensures
        pos <= run_end(args, pos) <= args.len(),
        forall|k: int| pos <= k < run_end(args, pos) ==> !is_option(#[trigger] args[k]),
        run_end(args, pos) < args.len() ==> is_option(args[run_end(args, pos)]),
    decreases args.len() - pos,
{
    if pos < args.len() && !is_option(args[pos]) {
        lemma_run_end_bounds(args, pos + 1);
    }
}

/// The numbers of `args[from..to]`, or the first value that is not one.
pub open spec fn numbers_in(args: Seq<Seq<char>>, from: int, to: int, name: Seq<char>) -> Result<
    Seq<usize>,
    ArgFailure,
>
    decreases to - from,
{
    if to <= from {
        Ok(Seq::empty())
    } else {
        match numbers_in(args, from, to - 1, name) {
            Err(e) => Err(e),
            Ok(v) => match parse_usize(args[to - 1]) {
                Some(n) => Ok(v.push(n)),
                None => Err(ArgFailure::InvalidValue(name, args[to - 1])),
            },
        }
    }
}

/// The default settings, writing to `output_dir`.
pub open spec fn default_config(output_dir: Seq<char>) -> ConfigModel {
    ConfigModel {
        sizes: seq![5usize, 50usize, 500usize],
        actions: seq!["cycle"@, "focus-attention"@, "cycle-attention"@, "pane.focused"@, "pane.closed"@],
        iterations: 100,
        warmup: 5,
        output_dir,
    }
}

/// What the command line from `pos` on makes of the settings `cfg`.
pub open spec fn parse_from(args: Seq<Seq<char>>, pos: int, cfg: ConfigModel) -> Result<
    InvocationModel,
    ArgFailure,
>
    decreases args.len() - pos,
{
    if pos < 0 || pos >= args.len() {
        if cfg.sizes.len() == 0 || cfg.actions.len() == 0 {
            Err(ArgFailure::EmptyLists)
        } else {
            Ok(InvocationModel::Run(cfg))
        }
    } else {
        let arg = args[pos];
        if arg == "--sizes"@ {
            let end = run_end(args, pos + 1);
            proof {
                lemma_run_end_bounds(args, pos + 1);
            }
            if end == pos + 1 {
                Err(ArgFailure::NeedsValues("sizes"@))
            } else {
                match numbers_in(args, pos + 1, end, "sizes"@) {
                    Err(e) => Err(e),
                    Ok(v) => parse_from(args, end, ConfigModel { sizes: v, ..cfg }),
                }
            }
        } else if arg == "--actions"@ {
            let end = run_end(args, pos + 1);
            proof {
                lemma_run_end_bounds(args, pos + 1);
            }
            if end == pos + 1 {
                Err(ArgFailure::NeedsValues("actions"@))
            } else {
                parse_from(args, end, ConfigModel { actions: args.subrange(pos + 1, end), ..cfg })
            }
        } else if arg == "--iterations"@ || arg == "--warmup"@ {
            let name = if arg == "--iterations"@ {
                "iterations"@
            } else {
                "warmup"@
            };
            if pos + 1 >= args.len() {
                Err(ArgFailure::NeedsValue(name))
            } else {
                match parse_usize(args[pos + 1]) {
                    None => Err(ArgFailure::InvalidValue(name, args[pos + 1])),
                    Some(n) => parse_from(
                        args,
                        pos + 2,
                        if arg == "--iterations"@ {
                            ConfigModel { iterations: n, ..cfg }
                        } else {
                            ConfigModel { warmup: n, ..cfg }
                        },
                    ),
                }
            }
        } else if arg == "--output-dir"@ {
            if pos + 1 >= args.len() {
                Err(ArgFailure::NeedsPath)
            } else {
                parse_from(args, pos + 2, ConfigModel { output_dir: args[pos + 1], ..cfg })
            }
        } else if arg == "--help"@ || arg == "-h"@ {
            Ok(InvocationModel::Help)
        } else {
            Err(ArgFailure::UnknownArgument(arg))
        }
    }
}

/// Whether an argument is an option; see [`is_option`].
fn is_option_str(arg: &str) -> (res: bool)
    ensures
        res == is_option(arg@),
{
    let chars = chars_of(arg);
    chars.len() > 0 && chars[0] == '-'
}

/// The values that follow an option: the arguments from `*pos` up to the
/// next option. Advances `*pos` past them; refuses an empty run.
pub fn parse_values(args: &Vec<String>, pos: &mut usize, name: &str) -> (res: Result<Vec<String>, ArgError>)
    requires
        *old(pos) <= args@.len(),
    ensures
        ({
            let end = run_end(ids(args@), *old(pos) as int);
            if end == *old(pos) {
                res matches Err(e) && e@ == ArgFailure::NeedsValues(name@)
            } else {
                res matches Ok(v) && ids(v@) == ids(args@).subrange(*old(pos) as int, end) && *final(pos) == end
            }
        }),
{
    let ghost a = ids(args@);
    let ghost start = *pos as int;
    proof {
        lemma_run_end_bounds(a, start);
    }
    let mut values: Vec<String> = Vec::new();
    while *pos < args.len() && !is_option_str(args[*pos].as_str())
        invariant
            0 <= start <= *pos <= run_end(a, start),
            a == ids(args@),
            run_end(a, start) <= args@.len(),
            run_end(a, start) < args@.len() ==> is_option(a[run_end(a, start)]),
            forall|k: int| start <= k < run_end(a, start) ==> !is_option(#[trigger] a[k]),
            ids(values@) == a.subrange(start, *pos as int),
        decreases args@.len() - *pos,
    {
        let ghost before = ids(values@);
        values.push(args[*pos].clone());
        assert(ids(values@) =~= before.push(a[*pos as int]));
        assert(a.len() == args@.len());
        assert(a.subrange(start, *pos + 1) =~= a.subrange(start, *pos as int).push(a[*pos as int]));
        *pos = *pos + 1;
    }
    proof {
        if *pos < run_end(a, start) {
            assert(!is_option(a[*pos as int]));
            assert(a[*pos as int] == args@[*pos as int]@);
        }
    }
    if values.len() == 0 {
        return Err(ArgError::NeedsValues(name.to_string()));
    }
    Ok(values)
}

/// The values that follow an option, as text; see [`parse_values`].
pub fn parse_strings(args: &Vec<String>, pos: &mut usize, name: &str) -> (res: Result<Vec<String>, ArgError>)
    requires
        *old(pos) <= args@.len(),
    ensures
        ({
            let end = run_end(ids(args@), *old(pos) as int);
            if end == *old(pos) {
                res matches Err(e) && e@ == ArgFailure::NeedsValues(name@)
            } else {
                res matches Ok(v) && ids(v@) == ids(args@).subrange(*old(pos) as int, end) && *final(pos) == end
            }
        }),
{
    parse_values(args, pos, name)
}

/// The values that follow an option, as numbers; see [`parse_values`] and
/// [`numbers_in`].
pub fn parse_numbers(args: &Vec<String>, pos: &mut usize, name: &str) -> (res: Result<Vec<usize>, ArgError>)
    requires
        *old(pos) <= args@.len(),
    ensures
        ({
            let end = run_end(ids(args@), *old(pos) as int);
            if end == *old(pos) {
                res matches Err(e) && e@ == ArgFailure::NeedsValues(name@)
            } else {
                match numbers_in(ids(args@), *old(pos) as int, end, name@) {
                    Ok(v) => res matches Ok(n) && n@ == v && *final(pos) == end,
                    Err(f) => res matches Err(e) && e@ == f,
                }
            }
        }),
{
    let ghost a = ids(args@);
    let ghost start = *pos as int;
    proof {
        lemma_run_end_bounds(a, start);
    }
    let values = parse_values(args, pos, name)?;
    let ghost end = *pos as int;
    assert(end == run_end(a, start));
    assert(ids(values@) == a.subrange(start, end));
    assert(ids(values@).len() == values@.len());
    assert(a.len() == args@.len());
    let mut numbers: Vec<usize> = Vec::new();
    let mut i: usize = 0;
    while i < values.len()
        invariant
            i <= values@.len(),
            ids(values@) == a.subrange(start, end),
            a == ids(args@),
            start == *old(pos),
            end == run_end(a, start),
            end != start,
            0 <= start <= end <= a.len(),
            end - start == values@.len(),
            numbers_in(a, start, start + i, name@) == Ok::<Seq<usize>, ArgFailure>(numbers@),
        decreases values@.len() - i,
    {
        assert(ids(values@)[i as int] == values@[i as int]@);
        assert(a.subrange(start, end)[i as int] == a[start + i]);
        assert(a[start + i] == values@[i as int]@);
        match parse_usize_str(values[i].as_str()) {
            Some(n) => {
                numbers.push(n);
            },
            None => {
                proof {
                    assert(numbers_in(a, start, start + i + 1, name@) == Err::<Seq<usize>, ArgFailure>(
                        ArgFailure::InvalidValue(name@, a[start + i]),
                    ));
                    lemma_numbers_error_persists(a, start, start + i + 1, end, name@);
                }
                return Err(ArgError::InvalidValue(name.to_string(), values[i].clone()));
            },
        }
        i = i + 1;
    }
    Ok(numbers)
}

/// Once a value fails to read as a number, reading more values fails the
/// same way.
proof fn lemma_numbers_error_persists(args: Seq<Seq<char>>, from: int, k: int, m: int, name: Seq<char>)
    requires
        from <= k <= m,
        numbers_in(args, from, k, name) is Err,
    ensures
        numbers_in(args, from, m, name) == numbers_in(args, from, k, name),
    decreases m - k,
{
    if k < m {
        lemma_numbers_error_persists(args, from, k, m - 1, name);
    }
}

/// The number that follows an option. Advances `*pos` past it.
pub fn parse_number(args: &Vec<String>, pos: &mut usize, name: &str) -> (res: Result<usize, ArgError>)
    requires
        *old(pos) <= args@.len(),
    ensures
        if *old(pos) >= args@.len() {
            res matches Err(e) && e@ == ArgFailure::NeedsValue(name@)
        } else {
            match parse_usize(ids(args@)[*old(pos) as int]) {
                Some(n) => res == Ok::<usize, ArgError>(n) && *final(pos) == *old(pos) + 1,
                None => res matches Err(e) && e@ == ArgFailure::InvalidValue(name@, ids(args@)[*old(pos) as int]),
            }
        },
{
    if *pos >= args.len() {
        return Err(ArgError::NeedsValue(name.to_string()));
    }
    let value = &args[*pos];
    *pos = *pos + 1;
    match parse_usize_str(value.as_str()) {
        Some(n) => Ok(n),
        None => Err(ArgError::InvalidValue(name.to_string(), value.clone())),
    }
}

fn default_actions() -> (res: Vec<String>)
    ensures
        ids(res@) == default_config(Seq::empty()).actions,
{
    let mut v: Vec<String> = Vec::new();
    v.push("cycle".to_string());
    v.push("focus-attention".to_string());
    v.push("cycle-attention".to_string());
    v.push("pane.focused".to_string());
    v.push("pane.closed".to_string());
    assert(ids(v@) =~= default_config(Seq::empty()).actions);
    v
}

/// Reads the benchmark's command line (without the program name); see
/// [`parse_from`]. `default_output` is where the results go unless
/// `--output-dir` says otherwise.
pub fn parse_args(args: &Vec<String>, default_output: String) -> (res: Result<Invocation, ArgError>)
    ensures
        match parse_from(ids(args@), 0, default_config(default_output@)) {
            Ok(m) => res matches Ok(inv) && inv@ == m,
            Err(f) => res matches Err(e) && e@ == f,
        },
{
    let ghost a = ids(args@);
    let mut sizes: Vec<usize> = Vec::new();
    sizes.push(5);
    sizes.push(50);
    sizes.push(500);
    let mut cfg = BenchConfig {
        sizes,
        actions: default_actions(),
        iterations: 100,
        warmup: 5,
        output_dir: default_output,
    };
    assert(cfg.sizes@ =~= seq![5usize, 50usize, 500usize]);
    assert(cfg@ == default_config(default_output@));
    let mut pos: usize = 0;
    while pos < args.len()
        invariant
            pos <= args@.len(),
            a == ids(args@),
            parse_from(a, 0, default_config(default_output@)) == parse_from(a, pos as int, cfg@),
        decreases args@.len() - pos,
    {
        let arg = args[pos].as_str();
        assert(a[pos as int] == arg@);
        proof {
            reveal_strlit("--sizes");
            reveal_strlit("--actions");
            reveal_strlit("--iterations");
            reveal_strlit("--warmup");
            reveal_strlit("--output-dir");
            reveal_strlit("--help");
            reveal_strlit("-h");
        }
        pos = pos + 1;
        proof {
            lemma_run_end_bounds(a, pos as int);
        }
        if str_eq(arg, "--sizes") {
            let v = parse_numbers(args, &mut pos, "sizes")?;
            cfg.sizes = v;
        } else if str_eq(arg, "--actions") {
            let v = parse_strings(args, &mut pos, "actions")?;
            cfg.actions = v;
        } else if str_eq(arg, "--iterations") {
            let n = parse_number(args, &mut pos, "iterations")?;
            cfg.iterations = n;
        } else if str_eq(arg, "--warmup") {
            let n = parse_number(args, &mut pos, "warmup")?;
            cfg.warmup = n;
        } else if str_eq(arg, "--output-dir") {
            if pos >= args.len() {
                return Err(ArgError::NeedsPath);
            }
            cfg.output_dir = args[pos].clone();
            pos = pos + 1;
        } else if str_eq(arg, "--help") || str_eq(arg, "-h") {
            return Ok(Invocation::Help);
        } else {
            return Err(ArgError::UnknownArgument(arg.to_string()));
        }
    }
    if cfg.sizes.len() == 0 || cfg.actions.len() == 0 {
        return Err(ArgError::EmptyLists);
    }
    Ok(Invocation::Run(cfg))
}

// ------------------------------------------------------------------ fixtures

/// The indices of the fixture panes that an action's setup focuses, in
/// order: every pane before a cycle, the second pane (the first when there
/// is only one) before a focus event, and the first three before a close
/// event; other actions need no setup.
pub open spec fn setup_plan(action: Seq<char>, size: usize) -> Option<Seq<usize>> {
    if action == "cycle"@ {
        Some(Seq::new(size as nat, |i: int| i as usize))
    } else if action == "pane.focused"@ {
        Some(seq![if size > 1 { 1usize } else { 0usize }])
    } else if action == "pane.closed"@ {
        Some(Seq::new((if size < 3 { size } else { 3 }) as nat, |i: int| i as usize))
    } else {
        None
    }
}

fn indices_below(n: usize) -> (res: Vec<usize>)
    ensures
        res@ == Seq::new(n as nat, |i: int| i as usize),
{
    let mut v: Vec<usize> = Vec::new();
    let mut i: usize = 0;
    while i < n
        invariant
            i <= n,
            v@ == Seq::new(i as nat, |k: int| k as usize),
        decreases n - i,
    {
        v.push(i);
        i = i + 1;
        assert(v@ =~= Seq::new(i as nat, |k: int| k as usize));
    }
    v
}

/// The panes to focus before timing `action`; see [`setup_plan`].
pub fn setup_indices(action: &str, size: usize) -> (res: Option<Vec<usize>>)
    ensures
        match setup_plan(action@, size) {
            Some(p) => res matches Some(v) && v@ == p,
            None => res is None,
        },
{
    if str_eq(action, "cycle") {
        Some(indices_below(size))
    } else if str_eq(action, "pane.focused") {
        let mut v: Vec<usize> = Vec::new();
        v.push(if size > 1 { 1 } else { 0 });
        assert(v@ =~= seq![if size > 1 { 1usize } else { 0usize }]);
        Some(v)
    } else if str_eq(action, "pane.closed") {
        Some(indices_below(if size < 3 { size } else { 3 }))
    } else {
        None
    }
}

/// The decimal numbers of `values`, separated by commas.
pub open spec fn joined_decimals(values: Seq<usize>) -> Seq<char>
    decreases values.len(),
{
    if values.len() == 0 {
        Seq::empty()
    } else if values.len() == 1 {
        decimal(values[0] as nat)
    } else {
        joined_decimals(values.drop_last()) + ","@ + decimal(values.last() as nat)
    }
}

/// Writes `values` in decimal, separated by commas.
pub fn join_usizes(values: &[usize]) -> (res: String)
    ensures
        res@ == joined_decimals(values@),
{
    let mut out = String::new();
    let mut i: usize = 0;
    while i < values.len()
        invariant
            i <= values@.len(),
            out@ == joined_decimals(values@.take(i as int)),
        decreases values@.len() - i,
    {
        assert(values@.take(i + 1).drop_last() =~= values@.take(i as int));
        if i > 0 {
            out.append(",");
        }
        push_decimal(&mut out, values[i] as u128);
        i = i + 1;
    }
    assert(values@.take(values@.len() as int) =~= values@);
    out
}

/// Why the benchmark cannot time an action.
#[derive(Debug)]
pub enum FixtureError {
    /// A fixture pane has no string `pane_id`.
    NoPaneId,
    /// The action is not one the benchmark knows; its name.
    UnknownAction(String),
}

impl FixtureError {
    /// The message to show for this error.
    pub fn message(&self) -> (res: String)
        ensures
            res@ == match self {
                FixtureError::NoPaneId => "fixture pane has no pane_id"@,
                FixtureError::UnknownAction(a) => "unknown action: "@ + a@,
            },
    {
        match self {
            FixtureError::NoPaneId => "fixture pane has no pane_id".to_string(),
            FixtureError::UnknownAction(a) => "unknown action: ".to_string().concat(a.as_str()),
        }
    }
}

/// The `pane_id` member of a fixture pane, when it is a string.
pub open spec fn fixture_pane_id(pane: Json) -> Option<Seq<char>> {
    member_str(pane, "pane_id"@)
}

/// The id of a fixture pane; see [`fixture_pane_id`].
pub fn pane_id(pane: &Json) -> (res: Result<String, FixtureError>)
    ensures
        match fixture_pane_id(*pane) {
            Some(id) => res matches Ok(s) && s@ == id,
            None => res matches Err(FixtureError::NoPaneId),
        },
{
    match member_string(pane, "pane_id") {
        Some(s) => Ok(s.clone()),
        None => Err(FixtureError::NoPaneId),
    }
}

/// The pane an action is run from, and the event payload it carries:
/// actions run from the last fixture pane (the cycle) or the first (the
/// attention actions); a focus event is about the first pane and a close
/// event about the last of the first three. `None` when a pane needed has
/// no id.
pub open spec fn action_context_spec(action: Seq<char>, panes: Seq<Json>, size: usize) -> Option<(Option<Seq<char>>, Option<Seq<char>>)> {
    let closed_index = (if size < 3 { size } else { 3 }) - 1;
    if action == "cycle"@ {
        match fixture_pane_id(panes[size - 1]) {
            Some(id) => Some((Some(id), None)),
            None => None,
        }
    } else if action == "focus-attention"@ || action == "cycle-attention"@ {
        match fixture_pane_id(panes[0]) {
            Some(id) => Some((Some(id), None)),
            None => None,
        }
    } else if action == "pane.focused"@ {
        match fixture_pane_id(panes[0]) {
            Some(id) => Some((None, Some(id))),
            None => None,
        }
    } else {
        match fixture_pane_id(panes[closed_index]) {
            Some(id) => Some((None, Some(id))),
            None => None,
        }
    }
}

/// The actions and events the benchmark knows.
pub open spec fn bench_action(action: Seq<char>) -> bool {
    ||| action == "cycle"@
    ||| action == "focus-attention"@
    ||| action == "cycle-attention"@
    ||| action == "pane.focused"@
    ||| action == "pane.closed"@
}

/// The event payload that names `id`: `{"pane_id": id}`.
pub fn pane_event(id: String) -> (res: Json)
    ensures
        payload_id(Some(res)) == Some(id@),
{
    let mut entries: Vec<(String, Json)> = Vec::new();
    entries.push(("pane_id".to_string(), Json::Str(id)));
    Json::Object(entries)
}

/// The id that an event payload `{"pane_id": id}` names.
pub open spec fn payload_id(payload: Option<Json>) -> Option<Seq<char>> {
    match payload {
        Some(Json::Object(entries)) => if entries@.len() == 1 && entries@[0].0@ == "pane_id"@ {
            match entries@[0].1 {
                Json::Str(s) => Some(s@),
                _ => None,
            }
        } else {
            None
        },
        _ => None,
    }
}

/// The pane the benchmark runs `action` from and the event payload it
/// passes, for fixtures of `size` panes; see [`action_context_spec`].
pub fn action_context(action: &str, panes: &[Json], size: usize) -> (res: Result<(Option<String>, Option<Json>), FixtureError>)
    requires
        0 < size <= panes@.len(),
    ensures
        !bench_action(action@) ==> (res matches Err(FixtureError::UnknownAction(a)) && a@ == action@),
        bench_action(action@) ==> match action_context_spec(action@, panes@, size) {
            Some((from, event)) => (res matches Ok((f, e)) && crate::actions::opt_view(f) == from
                && payload_id(e) == event),
            None => (res matches Err(FixtureError::NoPaneId)),
        },
{
    if str_eq(action, "cycle") {
        Ok((Some(pane_id(&panes[size - 1])?), None))
    } else if str_eq(action, "focus-attention") || str_eq(action, "cycle-attention") {
        Ok((Some(pane_id(&panes[0])?), None))
    } else if str_eq(action, "pane.focused") {
        let id = pane_id(&panes[0])?;
        Ok((None, Some(pane_event(id))))
    } else if str_eq(action, "pane.closed") {
        let last = if size < 3 { size } else { 3 };
        let id = pane_id(&panes[last - 1])?;
        Ok((None, Some(pane_event(id))))
    } else {
        Err(FixtureError::UnknownAction(action.to_string()))
    }
}

/// `n` in decimal, padded with leading zeros to at least four digits.
pub open spec fn padded4(n: nat) -> Seq<char> {
    let d = decimal(n);
    if d.len() < 4 {
        Seq::new((4 - d.len()) as nat, |i: int| '0') + d
    } else {
        d
    }
}

/// The agent status of fixture pane `i`: `blocked`, `done`, `idle` and
/// `working` in turn.
pub open spec fn fixture_status(i: nat) -> Seq<char> {
    if i % 4 == 0 {
        "blocked"@
    } else if i % 4 == 1 {
        "done"@
    } else if i % 4 == 2 {
        "idle"@
    } else {
        "working"@
    }
}

/// Whether `pane` is fixture pane `i`: an object with, in key order, the
/// members `agent_status`, `pane_id` (`pane-` and `i` in four digits) and
/// `title` (`Pane ` and `i`).
pub open spec fn is_fixture_pane(pane: Json, i: nat) -> bool {
    match pane {
        Json::Object(m) => {
            &&& m@.len() == 3
            &&& str_member(m@[0], "agent_status"@, fixture_status(i))
            &&& str_member(m@[1], "pane_id"@, "pane-"@ + padded4(i))
            &&& str_member(m@[2], "title"@, "Pane "@ + decimal(i))
        },
        _ => false,
    }
}

/// Whether a member is named `key` and holds the string `value`.
pub open spec fn str_member(member: (String, Json), key: Seq<char>, value: Seq<char>) -> bool {
    &&& member.0@ == key
    &&& member.1 matches Json::Str(s) && s@ == value
}

fn push_padded4(out: &mut String, n: usize)
    ensures
        final(out)@ == old(out)@ + padded4(n as nat),
{
    let mut digits = String::new();
    push_decimal(&mut digits, n as u128);
    let width = chars_of(digits.as_str()).len();
    let mut k = width;
    while k < 4
        invariant
            width <= k <= 4 || (width >= 4 && k == width),
            width == decimal(n as nat).len(),
            digits@ == decimal(n as nat),
            out@ == old(out)@ + Seq::new((k - width) as nat, |i: int| '0'),
        decreases 4 - k,
    {
        out.append("0");
        proof {
            reveal_strlit("0");
        }
        k = k + 1;
        assert(out@ =~= old(out)@ + Seq::new((k - width) as nat, |i: int| '0'));
    }
    out.append(digits.as_str());
    if width < 4 {
        assert(out@ =~= old(out)@ + padded4(n as nat));
    } else {
        assert(out@ =~= old(out)@ + padded4(n as nat));
    }
}

fn fixture_status_str(i: usize) -> (s: &'static str)
    ensures
        s@ == fixture_status(i as nat),
{
    if i % 4 == 0 {
        "blocked"
    } else if i % 4 == 1 {
        "done"
    } else if i % 4 == 2 {
        "idle"
    } else {
        "working"
    }
}

/// The panes a fixture of `size` panes lists; see [`is_fixture_pane`].
pub fn generate_panes(size: usize) -> (res: Vec<Json>)
    ensures
        res@.len() == size,
        forall|i: int| 0 <= i < size ==> is_fixture_pane(#[trigger] res@[i], i as nat),
{
    let mut panes: Vec<Json> = Vec::new();
    let mut i: usize = 0;
    while i < size
        invariant
            i <= size,
            panes@.len() == i,
            forall|k: int| 0 <= k < i ==> is_fixture_pane(#[trigger] panes@[k], k as nat),
        decreases size - i,
    {
        let mut id = "pane-".to_string();
        push_padded4(&mut id, i);
        let mut title = "Pane ".to_string();
        push_decimal(&mut title, i as u128);
        let mut members: Vec<(String, Json)> = Vec::new();
        members.push(("agent_status".to_string(), Json::Str(fixture_status_str(i).to_string())));
        members.push(("pane_id".to_string(), Json::Str(id)));
        members.push(("title".to_string(), Json::Str(title)));
        panes.push(Json::Object(members));
        i = i + 1;
    }
    panes
}

} // verus!
