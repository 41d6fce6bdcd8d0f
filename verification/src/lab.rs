//! The bench's command-line logic: where the repository is, and what the
//! options given to a command say.

use vstd::prelude::*;
use crate::parameters::{index_for, parameter_index, same_text};

verus! {

/// The directory that contains `path`, as `std::path::Path::parent` answers
/// it for the target the crate is built for; `None` for a root or an empty
/// path.
pub uninterp spec fn path_parent(path: Seq<char>) -> Option<Seq<char>>;

/// `std::path::Path::parent`, on a path given as text.
///
/// Trusted: the result is `path_parent` of the argument, with the parent
/// written back as text. What `path_parent` is on a given path is left to
/// the standard library.
#[verifier::external_body]
fn parent_of(path: &str) -> (parent: Option<String>)
    ensures
        match path_parent(path@) {
            Some(p) => parent matches Some(q) && q@ == p,
            None => parent is None,
        },
{
    match std::path::Path::new(path).parent() {
        Some(p) => Some(p.to_string_lossy().into_owned()),
        None => None,
    }
}

/// Whether `path` has a parent and a grandparent.
pub open spec fn has_two_parents(path: Seq<char>) -> bool {
    path_parent(path) matches Some(p) && path_parent(p) is Some
}

/// The repository root: two directories above the bench crate's manifest
/// directory, which must have two levels above it.
pub fn repository_root(manifest_dir: &str) -> (root: String)
    requires
        has_two_parents(manifest_dir@),
    ensures
        Some(root@) == path_parent(path_parent(manifest_dir@)->0),
{
    let crates = match parent_of(manifest_dir) {
        Some(crates) => crates,
        None => {
            assert(false);
            String::new()
        },
    };
    match parent_of(crates.as_str()) {
        Some(root) => root,
        None => {
            assert(false);
            String::new()
        },
    }
}

/// The repository root, or `None` where the manifest directory has fewer
/// than two levels above it.
pub fn find_repository_root(manifest_dir: &str) -> (root: Option<String>)
    ensures
        root is Some <==> has_two_parents(manifest_dir@),
        root matches Some(r) ==> Some(r@) == path_parent(path_parent(manifest_dir@)->0),
{
    match parent_of(manifest_dir) {
        Some(crates) => match parent_of(crates.as_str()) {
            Some(_) => Some(repository_root(manifest_dir)),
            None => None,
        },
        None => None,
    }
}

/// Where `c` first occurs in `s`.
pub open spec fn first_position(s: Seq<char>, c: char) -> Option<int>
    decreases s.len(),
{
    if s.len() == 0 {
        None
    } else if s[0] == c {
        Some(0)
    } else {
        match first_position(s.drop_first(), c) {
            Some(i) => Some(i + 1),
            None => None,
        }
    }
}

/// `str::split_once` at a character: the text before the first `c` and the
/// text after it.
///
/// Trusted: the split is at the first occurrence of `c`, and neither part
/// includes it; `None` where `c` does not occur.
#[verifier::external_body]
fn split_at_first<'a>(text: &'a str, c: char) -> (parts: Option<(&'a str, &'a str)>)
    ensures
        match first_position(text@, c) {
            Some(i) => parts matches Some((before, after)) && before@ == text@.take(i) && after@
                == text@.skip(i + 1),
            None => parts is None,
        },
{
    text.split_once(c)
}

/// Whether every character of `s` is an ASCII digit.
pub open spec fn all_digits(s: Seq<char>) -> bool {
    forall|i: int| 0 <= i < s.len() ==> '0' <= #[trigger] s[i] <= '9'
}

/// The number a run of decimal digits spells.
pub open spec fn digits_value(s: Seq<char>) -> int
    decreases s.len(),
{
    if s.len() == 0 {
        0
    } else {
        digits_value(s.drop_last()) * 10 + (s.last() as int - '0' as int)
    }
}

/// What `str::parse::<u32>` reads: an optional `+`, then one or more ASCII
/// digits whose value fits in a `u32`.
pub open spec fn spec_parse_index(text: Seq<char>) -> Option<u32> {
    let digits = if text.len() > 0 && text[0] == '+' {
        text.drop_first()
    } else {
        text
    };
    if digits.len() > 0 && all_digits(digits) && digits_value(digits) <= u32::MAX {
        Some(digits_value(digits) as u32)
    } else {
        None
    }
}

/// `str::parse::<u32>`.
///
/// Trusted: the text is read as [`spec_parse_index`] states, which is what
/// the standard library documents for unsigned integers in base ten.
#[verifier::external_body]
fn parse_index(text: &str) -> (index: Option<u32>)
    ensures
        index == spec_parse_index(text@),
{
    match text.parse::<u32>() {
        Ok(index) => Some(index),
        Err(_) => None,
    }
}

/// Why the options given to a command were refused.
pub enum ParseError {
    /// `flag` was the last argument and needs a value after it.
    MissingValue { flag: String },
    /// `option` is not an option any command takes.
    UnknownOption { option: String },
    /// An assignment with no `=` in it.
    NoEquals { assignment: String },
    /// No parameter has the index or identifier `key`.
    UnknownParameter { key: String },
}

/// [`ParseError`], with its texts as character sequences.
pub enum ParseErrorView {
    MissingValue(Seq<char>),
    UnknownOption(Seq<char>),
    NoEquals(Seq<char>),
    UnknownParameter(Seq<char>),
}

impl View for ParseError {
    type V = ParseErrorView;

    open spec fn view(&self) -> ParseErrorView {
        match self {
            ParseError::MissingValue { flag } => ParseErrorView::MissingValue(flag@),
            ParseError::UnknownOption { option } => ParseErrorView::UnknownOption(option@),
            ParseError::NoEquals { assignment } => ParseErrorView::NoEquals(assignment@),
            ParseError::UnknownParameter { key } => ParseErrorView::UnknownParameter(key@),
        }
    }
}

/// What an assignment `id=value` or `index=value` asks for: the parameter's
/// index and the value's text.
pub open spec fn spec_parse_assignment(assignment: Seq<char>) -> Result<
    (u32, Seq<char>),
    ParseErrorView,
> {
    match first_position(assignment, '=') {
        None => Err(ParseErrorView::NoEquals(assignment)),
        Some(i) => {
            let key = assignment.take(i);
            let index = match spec_parse_index(key) {
                Some(n) => Some(n),
                None => index_for(key),
            };
            match index {
                None => Err(ParseErrorView::UnknownParameter(key)),
                Some(n) => Ok((n, assignment.skip(i + 1))),
            }
        },
    }
}

/// Reads an assignment `key=value`, the key a parameter's index or its
/// identifier. Answers the index and the value's text; reading the value as
/// a number is left to the caller.
pub fn parse_assignment(assignment: &str) -> (r: Result<(u32, String), ParseError>)
    ensures
        match r {
            Ok((index, value)) => spec_parse_assignment(assignment@) == Ok::<
                (u32, Seq<char>),
                ParseErrorView,
            >((index, value@)),
            Err(e) => spec_parse_assignment(assignment@) == Err::<(u32, Seq<char>), ParseErrorView>(
                e@,
            ),
        },
{
    let (key, value) = match split_at_first(assignment, '=') {
        Some(parts) => parts,
        None => return Err(ParseError::NoEquals { assignment: assignment.to_owned() }),
    };
    let index = match parse_index(key) {
        Some(index) => index,
        None => match parameter_index(key) {
            Some(index) => index,
            None => return Err(ParseError::UnknownParameter { key: key.to_owned() }),
        },
    };
    Ok((index, value.to_owned()))
}

/// The options a bench command was given. Numbers stay text here: reading
/// them is the caller's.
pub struct Options {
    pub preset: Option<String>,
    /// Parameter index and the value's text, in the order given.
    pub overrides: Vec<(u32, String)>,
    pub input: Option<String>,
    pub output: Option<String>,
    /// The text after the last `--seconds`; `None` for the default length.
    pub seconds: Option<String>,
}

/// [`Options`], with its texts as character sequences.
pub struct OptionsView {
    pub preset: Option<Seq<char>>,
    pub overrides: Seq<(u32, Seq<char>)>,
    pub input: Option<Seq<char>>,
    pub output: Option<Seq<char>>,
    pub seconds: Option<Seq<char>>,
}

/// The characters of an optional text.
pub open spec fn text_of(text: Option<String>) -> Option<Seq<char>> {
    match text {
        Some(t) => Some(t@),
        None => None,
    }
}

impl View for Options {
    type V = OptionsView;

    open spec fn view(&self) -> OptionsView {
        OptionsView {
            preset: text_of(self.preset),
            overrides: self.overrides@.map_values(|pair: (u32, String)| (pair.0, pair.1@)),
            input: text_of(self.input),
            output: text_of(self.output),
            seconds: text_of(self.seconds),
        }
    }
}

impl Options {
    /// No preset, no overrides, no files, the default length.
    pub fn new() -> (o: Options)
        ensures
            o@ == (OptionsView {
                preset: None,
                overrides: Seq::empty(),
                input: None,
                output: None,
                seconds: None,
            }),
    {
        let o = Options {
            preset: None,
            overrides: Vec::new(),
            input: None,
            output: None,
            seconds: None,
        };
        assert(o@.overrides =~= Seq::<(u32, Seq<char>)>::empty());
        o
    }
}

/// Which option a step read.
pub enum Reading {
    Preset,
    Assignment,
    Input,
    Output,
    Seconds,
}

/// Whether `flag` is an option the bench takes; each takes one value.
pub open spec fn is_known_flag(flag: Seq<char>) -> bool {
    flag == "--preset"@ || flag == "--set"@ || flag == "--input"@ || flag == "--out"@ || flag
        == "--seconds"@
}

/// What reading the option at `index` of `args` does to `o`.
pub open spec fn spec_parse_option(args: Seq<String>, index: int, o: OptionsView) -> Result<
    (Reading, OptionsView),
    ParseErrorView,
> {
    let flag = args[index]@;
    if !is_known_flag(flag) {
        Err(ParseErrorView::UnknownOption(flag))
    } else if index + 1 >= args.len() {
        Err(ParseErrorView::MissingValue(flag))
    } else {
        let value = args[index + 1]@;
        if flag == "--preset"@ {
            Ok((Reading::Preset, OptionsView { preset: Some(value), ..o }))
        } else if flag == "--set"@ {
            match spec_parse_assignment(value) {
                Ok(pair) => Ok(
                    (Reading::Assignment, OptionsView { overrides: o.overrides.push(pair), ..o }),
                ),
                Err(e) => Err(e),
            }
        } else if flag == "--input"@ {
            Ok((Reading::Input, OptionsView { input: Some(value), ..o }))
        } else if flag == "--out"@ {
            Ok((Reading::Output, OptionsView { output: Some(value), ..o }))
        } else {
            Ok((Reading::Seconds, OptionsView { seconds: Some(value), ..o }))
        }
    }
}

/// Reads the option at `index` and the value after it into `options`, and
/// says which it was and where the next option stands: two arguments on.
/// Nothing is changed where the option is refused.
pub fn parse_option(arguments: &[String], index: usize, options: &mut Options) -> (r: Result<
    (Reading, usize),
    ParseError,
>)
    requires
        index < arguments@.len(),
    ensures
        match r {
            Ok((reading, next)) => next == index + 2 && next <= arguments@.len() && spec_parse_option(
                arguments@,
                index as int,
                old(options)@,
            ) == Ok::<(Reading, OptionsView), ParseErrorView>((reading, final(options)@)),
            Err(e) => spec_parse_option(arguments@, index as int, old(options)@) == Err::<
                (Reading, OptionsView),
                ParseErrorView,
            >(e@) && final(options)@ == old(options)@,
        },
{
    let flag = arguments[index].as_str();
    let preset = same_text(flag, "--preset");
    let set = same_text(flag, "--set");
    let input = same_text(flag, "--input");
    let output = same_text(flag, "--out");
    let seconds = same_text(flag, "--seconds");
    if !(preset || set || input || output || seconds) {
        return Err(ParseError::UnknownOption { option: flag.to_owned() });
    }
    if index + 1 >= arguments.len() {
        return Err(ParseError::MissingValue { flag: flag.to_owned() });
    }
    let value = arguments[index + 1].clone();
    let next = index + 2;
    if preset {
        options.preset = Some(value);
        Ok((Reading::Preset, next))
    } else if set {
        let pair = parse_assignment(value.as_str())?;
        options.overrides.push(pair);
        assert(options@.overrides =~= old(options)@.overrides.push((pair.0, pair.1@)));
        Ok((Reading::Assignment, next))
    } else if input {
        options.input = Some(value);
        Ok((Reading::Input, next))
    } else if output {
        options.output = Some(value);
        Ok((Reading::Output, next))
    } else {
        options.seconds = Some(value);
        Ok((Reading::Seconds, next))
    }
}

/// The five option names are different texts.
proof fn lemma_flags_differ()
    ensures
        "--preset"@ != "--set"@,
        "--preset"@ != "--input"@,
        "--preset"@ != "--out"@,
        "--preset"@ != "--seconds"@,
        "--set"@ != "--input"@,
        "--set"@ != "--out"@,
        "--set"@ != "--seconds"@,
        "--input"@ != "--out"@,
        "--input"@ != "--seconds"@,
        "--out"@ != "--seconds"@,
{
    reveal_strlit("--preset");
    reveal_strlit("--set");
    reveal_strlit("--input");
    reveal_strlit("--out");
    reveal_strlit("--seconds");
    assert("--preset"@.len() == 8);
    assert("--input"@.len() == 7);
    assert("--seconds"@.len() == 9);
    assert("--set"@.len() == 5);
    assert("--out"@.len() == 5);
    assert("--set"@[2] != "--out"@[2]);
}

/// Each option sets its own field to the argument after it and leaves every
/// other option as it was: `--preset`, `--input`, `--out` and `--seconds`
/// each replace their own value, `--set` appends its assignment to the
/// overrides; an option that needs a value and has none, or a name that is
/// no option, is refused.
pub proof fn lemma_each_option_sets_its_own_field(args: Seq<String>, i: int, o: OptionsView)
    requires
        0 <= i < args.len(),
    ensures
        i + 1 < args.len() && args[i]@ == "--preset"@ ==> (spec_parse_option(args, i, o) matches Ok(
            (r, p),
        ) && r is Preset && p.preset == Some(args[i + 1]@) && p.input == o.input && p.output
            == o.output && p.seconds == o.seconds && p.overrides == o.overrides),
        i + 1 < args.len() && args[i]@ == "--input"@ ==> (spec_parse_option(args, i, o) matches Ok(
            (r, p),
        ) && r is Input && p.input == Some(args[i + 1]@) && p.preset == o.preset && p.output
            == o.output && p.seconds == o.seconds && p.overrides == o.overrides),
        i + 1 < args.len() && args[i]@ == "--out"@ ==> (spec_parse_option(args, i, o) matches Ok(
            (r, p),
        ) && r is Output && p.output == Some(args[i + 1]@) && p.preset == o.preset && p.input
            == o.input && p.seconds == o.seconds && p.overrides == o.overrides),
        i + 1 < args.len() && args[i]@ == "--seconds"@ ==> (spec_parse_option(args, i, o) matches Ok(
            (r, p),
        ) && r is Seconds && p.seconds == Some(args[i + 1]@) && p.preset == o.preset && p.input
            == o.input && p.output == o.output && p.overrides == o.overrides),
        i + 1 < args.len() && args[i]@ == "--set"@ ==> match spec_parse_assignment(args[i + 1]@) {
            Ok(pair) => (spec_parse_option(args, i, o) matches Ok((r, p)) && r is Assignment
                && p.overrides == o.overrides.push(pair) && p.preset == o.preset && p.input
                == o.input && p.output == o.output && p.seconds == o.seconds),
            Err(e) => spec_parse_option(args, i, o) == Err::<(Reading, OptionsView), ParseErrorView>(
                e,
            ),
        },
        i + 1 == args.len() && is_known_flag(args[i]@) ==> spec_parse_option(args, i, o) == Err::<
            (Reading, OptionsView),
            ParseErrorView,
        >(ParseErrorView::MissingValue(args[i]@)),
        !is_known_flag(args[i]@) ==> spec_parse_option(args, i, o) == Err::<
            (Reading, OptionsView),
            ParseErrorView,
        >(ParseErrorView::UnknownOption(args[i]@)),
{
    lemma_flags_differ();
}

/// Where `c` is not in `a`, its first place in `a + [c] + b` is just after
/// `a`.
proof fn lemma_first_position_after(a: Seq<char>, c: char, b: Seq<char>)
    requires
        !a.contains(c),
    ensures
        first_position(a + seq![c] + b, c) == Some(a.len() as int),
    decreases a.len(),
{
    if a.len() > 0 {
        assert(a[0] != c);
        lemma_first_position_after(a.drop_first(), c, b);
        assert((a + seq![c] + b).drop_first() =~= a.drop_first() + seq![c] + b);
    }
}

/// An assignment splits at its first `=`: for a key with no `=` in it,
/// `key=value` names the parameter the key gives, by index or identifier,
/// and carries `value` whole, even where it holds more `=`.
pub proof fn lemma_assignment_splits_at_the_first_equals(key: Seq<char>, value: Seq<char>)
    requires
        !key.contains('='),
    ensures
        ({
            let index = match spec_parse_index(key) {
                Some(n) => Some(n),
                None => index_for(key),
            };
            spec_parse_assignment(key + seq!['='] + value) == match index {
                Some(n) => Ok::<(u32, Seq<char>), ParseErrorView>((n, value)),
                None => Err(ParseErrorView::UnknownParameter(key)),
            }
        }),
{
    let text = key + seq!['='] + value;
    lemma_first_position_after(key, '=', value);
    assert(text.take(key.len() as int) =~= key);
    assert(text.skip(key.len() as int + 1) =~= value);
}

} // verus!
