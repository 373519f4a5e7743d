//! What a command line asks for, which device it names, and the checks and
//! updates made before levels are written back.
use vstd::prelude::*;

use crate::adjust::{adjust_spec, Adjust, ParseError};
use crate::args::{expansion, preprocess, Preprocessor};
use crate::text::{
    contains_text, contains_text_spec, eq_ignore_ascii_case, eq_ignoring_ascii_case, is_digit,
    str_eq, strs,
};
use crate::volume::{apply_view, refs_in_range, Volume, VolumeView};

verus! {

/// The options and adjustments of one invocation.
pub struct Args {
    pub device: Option<String>,
    pub id: Option<String>,
    pub force: bool,
    pub dry: bool,
    pub quiet: bool,
    pub adjusts: Vec<Adjust>,
}

impl Args {
    /// Whether the levels are to be written back: some adjustment was given
    /// and this is no dry run.
    pub fn wants_commit(&self) -> (r: bool)
        ensures
            r == (!self.dry && self.adjusts@.len() > 0),
    {
        !self.dry && self.adjusts.len() > 0
    }
}

/// What an invocation asks for.
pub enum Command {
    Help,
    Version,
    List,
    Run(Args),
}

/// The options that take a value.
#[derive(Clone, Copy, Debug, PartialEq, Eq, Structural)]
pub enum ValueFlag {
    Device,
    Id,
}

/// Why a command line was rejected.
pub enum ArgError {
    UnknownOption(String),
    MissingValue(ValueFlag),
    BadAdjustment(String, ParseError),
}

/// The options and adjustments, as values.
pub struct ArgsView {
    pub device: Option<Seq<char>>,
    pub id: Option<Seq<char>>,
    pub force: bool,
    pub dry: bool,
    pub quiet: bool,
    pub adjusts: Seq<Adjust>,
}

/// What a command line comes to, as values.
pub enum Outcome {
    Help,
    Version,
    List,
    Run(ArgsView),
    UnknownOption(Seq<char>),
    MissingValue(ValueFlag),
    BadAdjustment(Seq<char>, ParseError),
}

/// The characters of an optional string.
pub open spec fn opt_view(o: Option<String>) -> Option<Seq<char>> {
    match o {
        Some(s) => Some(s@),
        None => None,
    }
}

impl View for Args {
    type V = ArgsView;

    open spec fn view(&self) -> ArgsView {
        ArgsView {
            device: opt_view(self.device),
            id: opt_view(self.id),
            force: self.force,
            dry: self.dry,
            quiet: self.quiet,
            adjusts: self.adjusts@,
        }
    }
}

/// The outcome a parse result stands for.
pub open spec fn outcome_of(r: Result<Command, ArgError>) -> Outcome {
    match r {
        Ok(Command::Help) => Outcome::Help,
        Ok(Command::Version) => Outcome::Version,
        Ok(Command::List) => Outcome::List,
        Ok(Command::Run(a)) => Outcome::Run(a@),
        Err(ArgError::UnknownOption(t)) => Outcome::UnknownOption(t@),
        Err(ArgError::MissingValue(f)) => Outcome::MissingValue(f),
        Err(ArgError::BadAdjustment(t, e)) => Outcome::BadAdjustment(t@, e),
    }
}

/// No options set and no adjustments.
pub open spec fn no_args() -> ArgsView {
    ArgsView { device: None, id: None, force: false, dry: false, quiet: false, adjusts: seq![] }
}

/// The arguments without the empty ones.
pub open spec fn drop_empty(s: Seq<Seq<char>>) -> Seq<Seq<char>>
    decreases s.len(),
{
    if s.len() == 0 {
        seq![]
    } else if s.last().len() == 0 {
        drop_empty(s.drop_last())
    } else {
        drop_empty(s.drop_last()).push(s.last())
    }
}

/// A token that starts like an option but is not a negative-looking number.
pub open spec fn is_unknown_option(t: Seq<char>) -> bool {
    t.len() > 0 && t[0] == '-' && !(t.len() > 1 && is_digit(t[1]))
}

/// Every token read as an adjustment, as after `--`.
pub open spec fn adjustments_only(tokens: Seq<Seq<char>>, acc: ArgsView) -> Outcome
    decreases tokens.len(),
{
    if tokens.len() == 0 {
        Outcome::Run(acc)
    } else {
        match adjust_spec(tokens[0]) {
            Ok(a) => adjustments_only(
                tokens.drop_first(),
                ArgsView { adjusts: acc.adjusts.push(a), ..acc },
            ),
            Err(e) => Outcome::BadAdjustment(tokens[0], e),
        }
    }
}

/// The outcome of reading `tokens` on top of what `acc` already holds. Help,
/// version and list end the reading at once, as does the first error.
pub open spec fn interpret(tokens: Seq<Seq<char>>, acc: ArgsView) -> Outcome
    decreases tokens.len(),
{
    if tokens.len() == 0 {
        Outcome::Run(acc)
    } else {
        let t = tokens[0];
        let rest = tokens.drop_first();
        if t == "--"@ {
            adjustments_only(rest, acc)
        } else if t == "-h"@ || t == "--help"@ {
            Outcome::Help
        } else if t == "-V"@ || t == "--version"@ {
            Outcome::Version
        } else if t == "-l"@ || t == "--list"@ {
            Outcome::List
        } else if t == "-f"@ || t == "--force"@ {
            interpret(rest, ArgsView { force: true, ..acc })
        } else if t == "-n"@ || t == "--dry"@ {
            interpret(rest, ArgsView { dry: true, ..acc })
        } else if t == "-q"@ || t == "--quiet"@ {
            interpret(rest, ArgsView { quiet: true, ..acc })
        } else if t == "-d"@ || t == "--device"@ {
            if rest.len() == 0 {
                Outcome::MissingValue(ValueFlag::Device)
            } else {
                interpret(rest.drop_first(), ArgsView { device: Some(rest[0]), ..acc })
            }
        } else if t == "-i"@ || t == "--id"@ {
            if rest.len() == 0 {
                Outcome::MissingValue(ValueFlag::Id)
            } else {
                interpret(rest.drop_first(), ArgsView { id: Some(rest[0]), ..acc })
            }
        } else if is_unknown_option(t) {
            Outcome::UnknownOption(t)
        } else {
            match adjust_spec(t) {
                Ok(a) => interpret(rest, ArgsView { adjusts: acc.adjusts.push(a), ..acc }),
                Err(e) => Outcome::BadAdjustment(t, e),
            }
        }
    }
}

/// What the command-line arguments `argv` (without the program name) ask
/// for: empty arguments are skipped, `-d` and `-i` take a value.
pub open spec fn command_spec(argv: Seq<Seq<char>>) -> Outcome {
    interpret(expansion(drop_empty(argv), "di"@), no_args())
}

/// `argv` without its empty strings.
fn non_empty(argv: &Vec<String>) -> (r: Vec<String>)
    ensures
        strs(r@) == drop_empty(strs(argv@)),
{
    let mut r: Vec<String> = Vec::new();
    let mut i: usize = 0;
    while i < argv.len()
        invariant
            i <= argv@.len(),
            strs(r@) == drop_empty(strs(argv@.subrange(0, i as int))),
        decreases argv@.len() - i,
    {
        let ghost before = strs(argv@.subrange(0, i as int));
        let ghost after = strs(argv@.subrange(0, i + 1));
        proof {
            assert(after.drop_last() =~= before);
            assert(after.last() == argv@[i as int]@);
        }
        if argv[i].as_str().unicode_len() > 0 {
            r.push(argv[i].clone());
            assert(strs(r@) =~= drop_empty(after));
        }
        i = i + 1;
    }
    assert(argv@.subrange(0, i as int) =~= argv@);
    r
}

/// Reads every remaining token as an adjustment.
fn rest_as_adjustments(pre: &mut Preprocessor, x0: Args) -> (r: Result<Command, ArgError>)
    requires
        old(pre).wf(),
    ensures
        outcome_of(r) == adjustments_only(old(pre).pending(), x0@),
{
    let mut x = x0;
    let ghost goal = adjustments_only(pre.pending(), x@);
    loop
        invariant
            pre.wf(),
            goal == adjustments_only(old(pre).pending(), x0@),
            adjustments_only(pre.pending(), x@) == goal,
        decreases pre.pending().len(),
    {
        match pre.next() {
            None => {
                return Ok(Command::Run(x));
            },
            Some(t) => {
                match Adjust::parse(t.as_str()) {
                    Ok(a) => {
                        x.adjusts.push(a);
                    },
                    Err(e) => {
                        return Err(ArgError::BadAdjustment(t, e));
                    },
                }
            },
        }
    }
}

/// What the command-line arguments `argv` (without the program name) ask for.
pub fn parse_args(argv: &Vec<String>) -> (r: Result<Command, ArgError>)
    ensures
        outcome_of(r) == command_spec(strs(argv@)),
{
    let args = non_empty(argv);
    let mut pre = preprocess(args.as_slice(), "di");
    let mut x = Args {
        device: None,
        id: None,
        force: false,
        dry: false,
        quiet: false,
        adjusts: Vec::new(),
    };
    proof {
        assert(x@ == no_args());
    }
    let ghost goal = command_spec(strs(argv@));
    loop
        invariant
            pre.wf(),
            pre.shorts() == "di"@,
            goal == command_spec(strs(argv@)),
            interpret(pre.pending(), x@) == goal,
        decreases pre.pending().len(),
    {
        let t = match pre.next() {
            None => {
                return Ok(Command::Run(x));
            },
            Some(t) => t,
        };
        let s = t.as_str();
        if str_eq(s, "--") {
            return rest_as_adjustments(&mut pre, x);
        } else if str_eq(s, "-h") || str_eq(s, "--help") {
            return Ok(Command::Help);
        } else if str_eq(s, "-V") || str_eq(s, "--version") {
            return Ok(Command::Version);
        } else if str_eq(s, "-l") || str_eq(s, "--list") {
            return Ok(Command::List);
        } else if str_eq(s, "-f") || str_eq(s, "--force") {
            x.force = true;
        } else if str_eq(s, "-n") || str_eq(s, "--dry") {
            x.dry = true;
        } else if str_eq(s, "-q") || str_eq(s, "--quiet") {
            x.quiet = true;
        } else if str_eq(s, "-d") || str_eq(s, "--device") {
            match pre.next() {
                None => {
                    return Err(ArgError::MissingValue(ValueFlag::Device));
                },
                Some(v) => {
                    x.device = Some(v);
                },
            }
        } else if str_eq(s, "-i") || str_eq(s, "--id") {
            match pre.next() {
                None => {
                    return Err(ArgError::MissingValue(ValueFlag::Id));
                },
                Some(v) => {
                    x.id = Some(v);
                },
            }
        } else if is_unknown_option_str(s) {
            return Err(ArgError::UnknownOption(t));
        } else {
            match Adjust::parse(s) {
                Ok(a) => {
                    x.adjusts.push(a);
                },
                Err(e) => {
                    return Err(ArgError::BadAdjustment(t, e));
                },
            }
        }
    }
}

/// Whether `t` starts like an option but is not a negative-looking number.
fn is_unknown_option_str(t: &str) -> (r: bool)
    ensures
        r == is_unknown_option(t@),
{
    let n = t.unicode_len();
    n > 0 && t.get_char(0) == '-' && !(n > 1 && crate::args::is_digit_char(t.get_char(1)))
}

/// The ASCII-and-Unicode upper case of a text, as `str::to_uppercase` gives it.
pub uninterp spec fn upper_of(s: Seq<char>) -> Seq<char>;

/// Relies on `str::to_uppercase`: the result depends on the characters alone.
#[verifier::external_body]
fn uppercase(s: &str) -> (r: String)
    ensures
        r@ == upper_of(s@),
{
    s.to_uppercase()
}

/// The indices of the first `k` texts in which `needle` occurs, in order.
pub open spec fn matching_texts(texts: Seq<Seq<char>>, needle: Seq<char>, k: nat) -> Seq<usize>
    decreases k,
{
    if k == 0 {
        seq![]
    } else if contains_text_spec(texts[k - 1], needle) {
        matching_texts(texts, needle, (k - 1) as nat).push((k - 1) as usize)
    } else {
        matching_texts(texts, needle, (k - 1) as nat)
    }
}

/// Each text in upper case, as `str::to_uppercase` gives it.
pub open spec fn upper_texts(texts: Seq<Seq<char>>) -> Seq<Seq<char>> {
    texts.map_values(|t: Seq<char>| upper_of(t))
}

/// Which of several devices a name query picks.
pub enum Selection {
    One(usize),
    NoMatch,
    Ambiguous(Vec<usize>),
}

/// `r` picks the matches `m`: the one match, none, or all of two or more.
pub open spec fn selects(r: Selection, m: Seq<usize>) -> bool {
    match r {
        Selection::One(i) => m == seq![i],
        Selection::NoMatch => m.len() == 0,
        Selection::Ambiguous(v) => v@ == m && m.len() >= 2,
    }
}

/// The texts in which `needle` occurs: exactly one, none, or several (all
/// their indices, in order).
pub fn select_matching(texts: &Vec<String>, needle: &str) -> (r: Selection)
    ensures
        selects(r, matching_texts(strs(texts@), needle@, texts@.len())),
{
    let mut found: Vec<usize> = Vec::new();
    let mut i: usize = 0;
    while i < texts.len()
        invariant
            i <= texts@.len(),
            found@ == matching_texts(strs(texts@), needle@, i as nat),
        decreases texts@.len() - i,
    {
        if contains_text(texts[i].as_str(), needle) {
            found.push(i);
        }
        i = i + 1;
    }
    if found.len() == 1 {
        assert(found@ =~= seq![found@[0]]);
        Selection::One(found[0])
    } else if found.len() == 0 {
        Selection::NoMatch
    } else {
        Selection::Ambiguous(found)
    }
}

/// The devices whose names match `query`, both compared in upper case:
/// exactly one, none, or several (all their indices, in order).
pub fn select_by_name(names: &Vec<String>, query: &str) -> (r: Selection)
    ensures
        selects(r, matching_texts(upper_texts(strs(names@)), upper_of(query@), names@.len())),
{
    let q = uppercase(query);
    let mut uppers: Vec<String> = Vec::new();
    let mut i: usize = 0;
    while i < names.len()
        invariant
            i <= names@.len(),
            uppers@.len() == i,
            strs(uppers@) == upper_texts(strs(names@.subrange(0, i as int))),
        decreases names@.len() - i,
    {
        let u = uppercase(names[i].as_str());
        let ghost before = strs(uppers@);
        let ghost before_v = uppers@;
        uppers.push(u);
        assert(uppers@ == before_v.push(u));
        proof {
            let done = names@.subrange(0, i + 1);
            assert(done.drop_last() =~= names@.subrange(0, i as int));
            assert forall|j: int| 0 <= j < i implies #[trigger] strs(uppers@)[j] == upper_texts(
                strs(done),
            )[j] by {
                assert(strs(uppers@)[j] == before[j]);
                assert(done[j] == names@[j]);
            }
            assert(strs(uppers@)[i as int] == upper_texts(strs(done))[i as int]);
        }
        i = i + 1;
        assert(strs(uppers@) =~= upper_texts(strs(names@.subrange(0, i as int))));
    }
    assert(names@.subrange(0, i as int) =~= names@);
    select_matching(&uppers, q.as_str())
}

/// The device id at `i` equals `wanted`, ASCII letters compared in either
/// case.
pub open spec fn id_matches(ids: Seq<Option<String>>, wanted: Seq<char>, i: int) -> bool {
    match ids[i] {
        Some(s) => eq_ignoring_ascii_case(s@, wanted),
        None => false,
    }
}

/// The first device whose id equals `wanted` (ASCII letters compared in
/// either case); a device without a readable id matches nothing.
pub fn select_by_id(ids: &Vec<Option<String>>, wanted: &str) -> (r: Option<usize>)
    ensures
        match r {
            Some(i) => i < ids@.len() && id_matches(ids@, wanted@, i as int) && forall|j: int|
                0 <= j < i ==> !id_matches(ids@, wanted@, j),
            None => forall|j: int| 0 <= j < ids@.len() ==> !id_matches(ids@, wanted@, j),
        },
{
    let mut i: usize = 0;
    while i < ids.len()
        invariant
            i <= ids@.len(),
            forall|j: int| 0 <= j < i ==> !id_matches(ids@, wanted@, j),
        decreases ids@.len() - i,
    {
        match &ids[i] {
            Some(s) => {
                if eq_ignore_ascii_case(s.as_str(), wanted) {
                    return Some(i);
                }
            },
            None => {},
        }
        i = i + 1;
    }
    None
}

/// Every channel that the adjustments name, as target or as value, exists
/// among `chan_count` channels.
pub fn channels_in_range(adjusts: &[Adjust], chan_count: u32) -> (r: bool)
    ensures
        r == forall|i: int| 0 <= i < adjusts@.len() ==> refs_in_range(#[trigger] adjusts@[i], chan_count as nat),
{
    let mut i: usize = 0;
    while i < adjusts.len()
        invariant
            i <= adjusts@.len(),
            forall|j: int| 0 <= j < i ==> refs_in_range(#[trigger] adjusts@[j], chan_count as nat),
        decreases adjusts@.len() - i,
    {
        let a = adjusts[i];
        match a.chan {
            crate::adjust::Channel::N(c) => {
                if c >= chan_count {
                    return false;
                }
            },
            _ => {},
        }
        match a.val {
            crate::adjust::Value::Channel(c) => {
                if c >= chan_count {
                    return false;
                }
            },
            _ => {},
        }
        i = i + 1;
    }
    true
}

/// The model after the adjustments, applied in order.
pub open spec fn apply_seq(s: VolumeView, adjusts: Seq<Adjust>) -> VolumeView
    decreases adjusts.len(),
{
    if adjusts.len() == 0 {
        s
    } else {
        apply_view(adjusts.last(), apply_seq(s, adjusts.drop_last()))
    }
}

/// Applies the adjustments to `vol` in order; each reads the levels that the
/// ones before it left.
pub fn apply_all(vol: &mut Volume, adjusts: &[Adjust])
    requires
        old(vol).wf(),
        forall|i: int|
            0 <= i < adjusts@.len() ==> refs_in_range(#[trigger] adjusts@[i], old(vol)@.channels.len()),
    ensures
        final(vol).wf(),
        final(vol)@ == apply_seq(old(vol)@, adjusts@),
{
    let ghost s = vol@;
    let mut i: usize = 0;
    while i < adjusts.len()
        invariant
            i <= adjusts@.len(),
            vol.wf(),
            vol@.channels.len() == s.channels.len(),
            s == old(vol)@,
            forall|j: int|
                0 <= j < adjusts@.len() ==> refs_in_range(#[trigger] adjusts@[j], s.channels.len()),
            vol@ == apply_seq(s, adjusts@.subrange(0, i as int)),
        decreases adjusts@.len() - i,
    {
        let a = adjusts[i];
        proof {
            assert(refs_in_range(adjusts@[i as int], s.channels.len()));
            let next = adjusts@.subrange(0, i + 1);
            assert(next.drop_last() =~= adjusts@.subrange(0, i as int));
        }
        a.apply(vol);
        i = i + 1;
    }
    assert(adjusts@.subrange(0, i as int) =~= adjusts@);
}

} // verus!
