//! Command-line options: the grammar of the arguments and the button map
//! that the click options seed.

use vstd::prelude::*;
use vstd::string::*;

use crate::assoc::assoc_map;
use crate::config::{all_inputs, input_table, lemma_input_ids_distinct, Action, ActionView};
use crate::mapping::{lookup, ButtonMap};
use crate::text::{split_exec, split_on, str_eq, string_views};

verus! {

/// The options that take a number.
#[derive(Debug, Clone, Copy, PartialEq, Eq)]
pub enum NumericOption {
    CursorSpeed,
    DpadSpeed,
    ScrollSpeed,
    PollHz,
    Deadzone,
}

/// The command-line options as given: the bundle IDs to exclude, the button
/// names of the three clicks, the two switches, and each numeric option's
/// text in the order the options came (a later one is read over an earlier
/// one; a text that is no number leaves the value as it was).
pub struct CliArgs {
    pub excluded_bundle_ids: Vec<String>,
    pub numeric: Vec<(NumericOption, String)>,
    pub left_click: String,
    pub right_click: String,
    pub middle_click: String,
    pub natural_scroll: bool,
    pub debug: bool,
}

/// Command-line options, as plain values.
pub struct CliArgsView {
    pub excluded_bundle_ids: Seq<Seq<char>>,
    pub numeric: Seq<(NumericOption, Seq<char>)>,
    pub left_click: Seq<char>,
    pub right_click: Seq<char>,
    pub middle_click: Seq<char>,
    pub natural_scroll: bool,
    pub debug: bool,
}

impl View for CliArgs {
    type V = CliArgsView;

    open spec fn view(&self) -> CliArgsView {
        CliArgsView {
            excluded_bundle_ids: string_views(self.excluded_bundle_ids@),
            numeric: self.numeric@.map_values(|e: (NumericOption, String)| (e.0, e.1@)),
            left_click: self.left_click@,
            right_click: self.right_click@,
            middle_click: self.middle_click@,
            natural_scroll: self.natural_scroll,
            debug: self.debug,
        }
    }
}

/// Outcome of CLI argument parsing that isn't a valid config.
#[derive(Debug)]
pub enum ParseOutcome {
    Help,
    Error(String),
}

/// A parse outcome, as plain values.
pub enum ParseOutcomeView {
    Help,
    Error(Seq<char>),
}

impl View for ParseOutcome {
    type V = ParseOutcomeView;

    open spec fn view(&self) -> ParseOutcomeView {
        match self {
            ParseOutcome::Help => ParseOutcomeView::Help,
            ParseOutcome::Error(msg) => ParseOutcomeView::Error(msg@),
        }
    }
}

impl ParseOutcome {
    /// The message of this outcome: `help requested`, or the error's own message.
    pub fn to_string(&self) -> (r: String)
        ensures
            r@ == match self@ {
                ParseOutcomeView::Help => "help requested"@,
                ParseOutcomeView::Error(msg) => msg,
            },
    {
        match self {
            ParseOutcome::Help => String::from_str("help requested"),
            ParseOutcome::Error(msg) => msg.clone(),
        }
    }
}

/// The help text that `--help` shows: the usage line and every option.
pub open spec fn usage_text() -> Seq<char> {
    "joyride [OPTIONS]\n\nOptions:\n  --cursor-speed <N>      Pixels/sec at full stick deflection (default: 1500)\n  --dpad-speed <N>        D-pad pixels/sec (default: 150)\n  --scroll-speed <N>      Scroll multiplier (default: 8)\n  --poll-hz <N>           Polling rate, 30-240 Hz (default: 120)\n  --deadzone <N>          Stick deadzone, 0.0-1.0 (default: 0.15)\n  --left-click <BTN>      Button for left click (default: buttonA)\n  --right-click <BTN>     Button for right click (default: buttonB)\n  --middle-click <BTN>    Button for middle click (default: buttonX)\n  --natural-scroll        Reverse scroll direction\n  --exclude <IDS>         Comma-separated bundle IDs to exclude\n  --debug                 Log to stderr\n  -h, --help              Show help\n"@
}

/// The help text that `--help` shows.
pub fn usage() -> (r: String)
    ensures
        r@ == usage_text(),
{
    String::from_str("joyride [OPTIONS]\n\nOptions:\n  --cursor-speed <N>      Pixels/sec at full stick deflection (default: 1500)\n  --dpad-speed <N>        D-pad pixels/sec (default: 150)\n  --scroll-speed <N>      Scroll multiplier (default: 8)\n  --poll-hz <N>           Polling rate, 30-240 Hz (default: 120)\n  --deadzone <N>          Stick deadzone, 0.0-1.0 (default: 0.15)\n  --left-click <BTN>      Button for left click (default: buttonA)\n  --right-click <BTN>     Button for right click (default: buttonB)\n  --middle-click <BTN>    Button for middle click (default: buttonX)\n  --natural-scroll        Reverse scroll direction\n  --exclude <IDS>         Comma-separated bundle IDs to exclude\n  --debug                 Log to stderr\n  -h, --help              Show help\n")
}

/// The options before any argument: nothing excluded, no numeric option,
/// clicks on buttons A, B and X, both switches off.
pub open spec fn default_args() -> CliArgsView {
    CliArgsView {
        excluded_bundle_ids: Seq::empty(),
        numeric: Seq::empty(),
        left_click: "buttonA"@,
        right_click: "buttonB"@,
        middle_click: "buttonX"@,
        natural_scroll: false,
        debug: false,
    }
}

/// The numeric option that a flag names, if any.
pub open spec fn numeric_flag(a: Seq<char>) -> Option<NumericOption> {
    if a == "--cursor-speed"@ {
        Some(NumericOption::CursorSpeed)
    } else if a == "--dpad-speed"@ {
        Some(NumericOption::DpadSpeed)
    } else if a == "--scroll-speed"@ {
        Some(NumericOption::ScrollSpeed)
    } else if a == "--poll-hz"@ {
        Some(NumericOption::PollHz)
    } else if a == "--deadzone"@ {
        Some(NumericOption::Deadzone)
    } else {
        None
    }
}

/// Which click a flag sets: 0 for left, 1 for right, 2 for middle.
pub open spec fn click_flag(a: Seq<char>) -> Option<int> {
    if a == "--left-click"@ {
        Some(0)
    } else if a == "--right-click"@ {
        Some(1)
    } else if a == "--middle-click"@ {
        Some(2)
    } else {
        None
    }
}

/// `acc` with the click `which` set to `name`.
pub open spec fn with_click(acc: CliArgsView, which: int, name: Seq<char>) -> CliArgsView {
    CliArgsView {
        left_click: if which == 0 {
            name
        } else {
            acc.left_click
        },
        right_click: if which == 1 {
            name
        } else {
            acc.right_click
        },
        middle_click: if which == 2 {
            name
        } else {
            acc.middle_click
        },
        ..acc
    }
}

/// The arguments from position `i` on, read into `acc`. A flag that takes a
/// value takes the next argument (and, as the last argument, takes nothing
/// and changes nothing); `--exclude` sets the excluded IDs to its value split
/// at `,`; `--help` or `-h` stops with `Help`; any other argument stops with
/// the error `Unknown option: ` and the argument.
pub open spec fn parse_from(args: Seq<Seq<char>>, i: int, acc: CliArgsView) -> Result<
    CliArgsView,
    ParseOutcomeView,
>
    decreases args.len() - i,
{
    if i < 0 || i >= args.len() {
        Ok(acc)
    } else {
        let a = args[i];
        let has_value = i + 1 < args.len();
        if a == "--exclude"@ || numeric_flag(a) is Some || click_flag(a) is Some {
            if !has_value {
                Ok(acc)
            } else {
                let value = args[i + 1];
                parse_from(
                    args,
                    i + 2,
                    if a == "--exclude"@ {
                        CliArgsView { excluded_bundle_ids: split_on(value, ','), ..acc }
                    } else if numeric_flag(a) is Some {
                        CliArgsView { numeric: acc.numeric.push((numeric_flag(a)->0, value)), ..acc }
                    } else {
                        with_click(acc, click_flag(a)->0, value)
                    },
                )
            }
        } else if a == "--natural-scroll"@ {
            parse_from(args, i + 1, CliArgsView { natural_scroll: true, ..acc })
        } else if a == "--debug"@ {
            parse_from(args, i + 1, CliArgsView { debug: true, ..acc })
        } else if a == "--help"@ || a == "-h"@ {
            Err(ParseOutcomeView::Help)
        } else {
            Err(ParseOutcomeView::Error("Unknown option: "@ + a))
        }
    }
}

/// What the arguments (after the program name) read as.
pub open spec fn parse_spec(args: Seq<Seq<char>>) -> Result<CliArgsView, ParseOutcomeView> {
    parse_from(args, 0, default_args())
}

/// The numeric option that a flag names, if any.
fn numeric_flag_exec(a: &str) -> (r: Option<NumericOption>)
    ensures
        r == numeric_flag(a@),
{
    if str_eq(a, "--cursor-speed") {
        Some(NumericOption::CursorSpeed)
    } else if str_eq(a, "--dpad-speed") {
        Some(NumericOption::DpadSpeed)
    } else if str_eq(a, "--scroll-speed") {
        Some(NumericOption::ScrollSpeed)
    } else if str_eq(a, "--poll-hz") {
        Some(NumericOption::PollHz)
    } else if str_eq(a, "--deadzone") {
        Some(NumericOption::Deadzone)
    } else {
        None
    }
}

/// Which click a flag sets: 0 for left, 1 for right, 2 for middle.
fn click_flag_exec(a: &str) -> (r: Option<u8>)
    ensures
        match r {
            Some(w) => click_flag(a@) == Some(w as int),
            None => click_flag(a@) is None,
        },
{
    if str_eq(a, "--left-click") {
        Some(0)
    } else if str_eq(a, "--right-click") {
        Some(1)
    } else if str_eq(a, "--middle-click") {
        Some(2)
    } else {
        None
    }
}

/// The parts of `s` between commas, as owned strings.
fn split_commas(s: &str) -> (r: Vec<String>)
    ensures
        string_views(r@) == split_on(s@, ','),
{
    let parts = split_exec(s, ',');
    let mut r: Vec<String> = Vec::new();
    let n = parts.len();
    let mut i: usize = 0;
    while i < n
        invariant
            n == parts@.len(),
            i <= n,
            string_views(r@) == parts@.map_values(|p: &str| p@).take(i as int),
        decreases n - i,
    {
        let ghost before = r@;
        r.push(String::from_str(parts[i]));
        assert(string_views(r@) =~= string_views(before).push(parts@[i as int]@));
        assert(parts@.map_values(|p: &str| p@).take(i + 1) =~= parts@.map_values(|p: &str| p@).take(
            i as int,
        ).push(parts@[i as int]@));
        i += 1;
    }
    assert(parts@.map_values(|p: &str| p@).take(n as int) =~= parts@.map_values(|p: &str| p@));
    r
}

impl CliArgs {
    /// Reads the arguments after the program name.
    pub fn parse(args: &[String]) -> (r: Result<CliArgs, ParseOutcome>)
        ensures
            match r {
                Ok(c) => parse_spec(string_views(args@)) == Ok::<CliArgsView, ParseOutcomeView>(
                    c@,
                ),
                Err(e) => parse_spec(string_views(args@)) == Err::<CliArgsView, ParseOutcomeView>(
                    e@,
                ),
            },
    {
        let ghost av = string_views(args@);
        let mut config = CliArgs {
            excluded_bundle_ids: Vec::new(),
            numeric: Vec::new(),
            left_click: String::from_str("buttonA"),
            right_click: String::from_str("buttonB"),
            middle_click: String::from_str("buttonX"),
            natural_scroll: false,
            debug: false,
        };
        assert(config@.excluded_bundle_ids =~= Seq::<Seq<char>>::empty());
        assert(config@.numeric =~= Seq::<(NumericOption, Seq<char>)>::empty());
        let n = args.len();
        let mut i: usize = 0;
        while i < n
            invariant
                n == args@.len(),
                av == string_views(args@),
                parse_from(av, i as int, config@) == parse_spec(av),
            decreases n - i,
        {
            let a = args[i].as_str();
            assert(av[i as int] == a@);
            let has_value = i + 1 < n;
            if str_eq(a, "--exclude") {
                if has_value {
                    assert(av[i + 1] == args@[i + 1]@);
                    config.excluded_bundle_ids = split_commas(args[i + 1].as_str());
                }
                i = if has_value { i + 2 } else { n };
            } else {
                match numeric_flag_exec(a) {
                    Some(opt) => {
                        if has_value {
                            assert(av[i + 1] == args@[i + 1]@);
                            let ghost before = config@.numeric;
                            config.numeric.push((opt, args[i + 1].clone()));
                            assert(config@.numeric =~= before.push((opt, av[i + 1])));
                        }
                        i = if has_value { i + 2 } else { n };
                    },
                    None => {
                        match click_flag_exec(a) {
                            Some(which) => {
                                if has_value {
                                    assert(av[i + 1] == args@[i + 1]@);
                                    let name = args[i + 1].clone();
                                    if which == 0 {
                                        config.left_click = name;
                                    } else if which == 1 {
                                        config.right_click = name;
                                    } else {
                                        config.middle_click = name;
                                    }
                                }
                                i = if has_value { i + 2 } else { n };
                            },
                            None => {
                                if str_eq(a, "--natural-scroll") {
                                    config.natural_scroll = true;
                                    i = i + 1;
                                } else if str_eq(a, "--debug") {
                                    config.debug = true;
                                    i = i + 1;
                                } else if str_eq(a, "--help") || str_eq(a, "-h") {
                                    return Err(ParseOutcome::Help);
                                } else {
                                    let mut msg = String::from_str("Unknown option: ");
                                    msg.append(a);
                                    return Err(ParseOutcome::Error(msg));
                                }
                            },
                        }
                    },
                }
            }
        }
        Ok(config)
    }

    /// The button map of the three click options: each named button clicks
    /// its mouse button; a name given for two clicks keeps the later one
    /// (middle over right over left).
    pub fn cli_button_map(&self) -> (r: ButtonMap)
        ensures
            assoc_map(r@) == Map::<Seq<char>, ActionView>::empty().insert(
                self.left_click@,
                ActionView::LeftClick,
            ).insert(self.right_click@, ActionView::RightClick).insert(
                self.middle_click@,
                ActionView::MiddleClick,
            ),
    {
        let mut m = ButtonMap::new();
        assert(assoc_map(m@) =~= Map::<Seq<char>, ActionView>::empty());
        m.insert(self.left_click.clone(), Action::LeftClick);
        m.insert(self.right_click.clone(), Action::RightClick);
        m.insert(self.middle_click.clone(), Action::MiddleClick);
        m
    }
}

/// The action an input gets in a new profile: what the click options give
/// it, `NoAction` otherwise.
pub open spec fn default_action(cli: Map<Seq<char>, ActionView>, input: Seq<char>) -> ActionView {
    if cli.contains_key(input) {
        cli[input]
    } else {
        ActionView::NoAction
    }
}

/// The button map of a new profile: every gamepad input, with what the click
/// options give it, or `NoAction`.
pub fn default_button_map(cli: &CliArgs) -> (r: ButtonMap)
    ensures
        r@.len() == input_table().len(),
        forall|i: int|
            0 <= i < r@.len() ==> #[trigger] r@[i] == (
                input_table()[i].0,
                default_action(
                    Map::<Seq<char>, ActionView>::empty().insert(
                        cli.left_click@,
                        ActionView::LeftClick,
                    ).insert(cli.right_click@, ActionView::RightClick).insert(
                        cli.middle_click@,
                        ActionView::MiddleClick,
                    ),
                    input_table()[i].0,
                ),
            ),
        forall|k: Seq<char>|
            #[trigger] assoc_map(r@).contains_key(k) <==> exists|i: int|
                0 <= i < input_table().len() && input_table()[i].0 == k,
        forall|i: int|
            0 <= i < input_table().len() ==> #[trigger] lookup(r@, input_table()[i].0) == Some(
                default_action(
                    Map::<Seq<char>, ActionView>::empty().insert(
                        cli.left_click@,
                        ActionView::LeftClick,
                    ).insert(cli.right_click@, ActionView::RightClick).insert(
                        cli.middle_click@,
                        ActionView::MiddleClick,
                    ),
                    input_table()[i].0,
                ),
            ),
{
    let cli_map = cli.cli_button_map();
    let ghost cm = assoc_map(cli_map@);
    let inputs = all_inputs();
    let mut m = ButtonMap::new();
    assert(assoc_map(m@) =~= Map::<Seq<char>, ActionView>::empty());
    proof {
        lemma_input_ids_distinct();
    }
    let n = inputs.len();
    let mut j: usize = 0;
    while j < n
        invariant
            n == inputs@.len(),
            n == input_table().len(),
            forall|i: int|
                0 <= i < inputs@.len() ==> (#[trigger] inputs@[i]).0@ == input_table()[i].0,
            cm == assoc_map(cli_map@),
            j <= n,
            m@.len() == j,
            forall|i: int| 0 <= i < j ==> #[trigger] m@[i] == (input_table()[i].0, default_action(cm, input_table()[i].0)),
            forall|i: int, i2: int|
                0 <= i < input_table().len() && 0 <= i2 < input_table().len() && i != i2
                    ==> input_table()[i].0 != input_table()[i2].0,
            forall|k: Seq<char>|
                #[trigger] assoc_map(m@).contains_key(k) <==> exists|i: int|
                    0 <= i < j && input_table()[i].0 == k,
            forall|k: Seq<char>|
                #[trigger] assoc_map(m@).contains_key(k) ==> assoc_map(m@)[k] == default_action(
                    cm,
                    k,
                ),
        decreases n - j,
    {
        let input = inputs[j].0;
        let action = match cli_map.get(input) {
            Some(a) => a.copy(),
            None => Action::NoAction,
        };
        let ghost before = assoc_map(m@);
        let ghost before_seq = m@;
        assert forall|i: int| 0 <= i < before_seq.len() implies before_seq[i].0 != input@ by {
            assert(before_seq[i].0 == input_table()[i].0);
        }
        m.insert(String::from_str(input), action);
        assert(m@ == before_seq.push((input@, action@)));
        assert forall|k: Seq<char>| #[trigger] assoc_map(m@).contains_key(k) <==> exists|i: int|
            0 <= i < j + 1 && input_table()[i].0 == k by {
            if k == input@ {
                assert(input_table()[j as int].0 == k);
            } else if before.contains_key(k) {
                let i = choose|i: int| 0 <= i < j && input_table()[i].0 == k;
                assert(0 <= i < j + 1 && input_table()[i].0 == k);
            }
        }
        j += 1;
    }
    assert forall|i: int| 0 <= i < input_table().len() implies #[trigger] lookup(
        m@,
        input_table()[i].0,
    ) == Some(default_action(cm, input_table()[i].0)) by {
        assert(assoc_map(m@).contains_key(input_table()[i].0));
    }
    m
}

/// The flags that take a value, and the switches, are different words.
proof fn lemma_flag_words_distinct()
    ensures
        numeric_flag("--natural-scroll"@) is None,
        numeric_flag("--debug"@) is None,
        click_flag("--natural-scroll"@) is None,
        click_flag("--debug"@) is None,
        "--natural-scroll"@ != "--exclude"@,
        "--debug"@ != "--exclude"@,
        "--debug"@ != "--natural-scroll"@,
{
    reveal_strlit("--natural-scroll");
    reveal_strlit("--debug");
    reveal_strlit("--exclude");
    reveal_strlit("--cursor-speed");
    reveal_strlit("--dpad-speed");
    reveal_strlit("--scroll-speed");
    reveal_strlit("--poll-hz");
    reveal_strlit("--deadzone");
    reveal_strlit("--left-click");
    reveal_strlit("--right-click");
    reveal_strlit("--middle-click");
    assert("--natural-scroll"@.len() != "--cursor-speed"@.len());
    assert("--natural-scroll"@[2] != "--dpad-speed"@[2]);
    assert("--natural-scroll"@.len() != "--scroll-speed"@.len());
    assert("--natural-scroll"@.len() != "--poll-hz"@.len());
    assert("--natural-scroll"@.len() != "--deadzone"@.len());
    assert("--natural-scroll"@.len() != "--left-click"@.len());
    assert("--natural-scroll"@.len() != "--right-click"@.len());
    assert("--natural-scroll"@.len() != "--middle-click"@.len());
    assert("--natural-scroll"@.len() != "--exclude"@.len());
    assert("--debug"@[2] != "--cursor-speed"@[2]);
    assert("--debug"@.len() != "--dpad-speed"@.len());
    assert("--debug"@.len() != "--scroll-speed"@.len());
    assert("--debug"@[2] != "--poll-hz"@[2]);
    assert("--debug"@.len() != "--deadzone"@.len());
    assert("--debug"@.len() != "--left-click"@.len());
    assert("--debug"@.len() != "--right-click"@.len());
    assert("--debug"@.len() != "--middle-click"@.len());
    assert("--debug"@.len() != "--exclude"@.len());
    assert("--debug"@.len() != "--natural-scroll"@.len());
}

/// Reading arguments after a prefix, from a position past it, reads as the
/// arguments without the prefix.
proof fn lemma_parse_from_shift(
    p: Seq<Seq<char>>,
    rest: Seq<Seq<char>>,
    i: int,
    acc: CliArgsView,
)
    requires
        0 <= i,
    ensures
        parse_from(p + rest, i + p.len(), acc) == parse_from(rest, i, acc),
    decreases rest.len() - i,
{
    let args = p + rest;
    let j = i + p.len();
    if i < rest.len() {
        assert(args[j] == rest[i]);
        if i + 1 < rest.len() {
            assert(args[j + 1] == rest[i + 1]);
        }
        lemma_parse_from_shift(p, rest, i + 1, CliArgsView { natural_scroll: true, ..acc });
        lemma_parse_from_shift(p, rest, i + 1, CliArgsView { debug: true, ..acc });
        if i + 1 < rest.len() {
            let a = rest[i];
            let value = rest[i + 1];
            let next = if a == "--exclude"@ {
                CliArgsView { excluded_bundle_ids: split_on(value, ','), ..acc }
            } else if numeric_flag(a) is Some {
                CliArgsView { numeric: acc.numeric.push((numeric_flag(a)->0, value)), ..acc }
            } else {
                with_click(acc, click_flag(a)->0, value)
            };
            lemma_parse_from_shift(p, rest, i + 2, next);
        }
    }
}

/// The outcome `r` with the switch `debug` turned on when it is a success.
pub open spec fn with_debug(r: Result<CliArgsView, ParseOutcomeView>) -> Result<
    CliArgsView,
    ParseOutcomeView,
> {
    match r {
        Ok(c) => Ok(CliArgsView { debug: true, ..c }),
        Err(e) => Err(e),
    }
}

/// The outcome `r` with the switch `natural_scroll` turned on when it is a
/// success.
pub open spec fn with_natural_scroll(r: Result<CliArgsView, ParseOutcomeView>) -> Result<
    CliArgsView,
    ParseOutcomeView,
> {
    match r {
        Ok(c) => Ok(CliArgsView { natural_scroll: true, ..c }),
        Err(e) => Err(e),
    }
}

/// Starting with a switch already on reads as turning it on at the end.
proof fn lemma_parse_from_switch_on(args: Seq<Seq<char>>, i: int, acc: CliArgsView)
    ensures
        parse_from(args, i, CliArgsView { debug: true, ..acc }) == with_debug(
            parse_from(args, i, acc),
        ),
        parse_from(args, i, CliArgsView { natural_scroll: true, ..acc }) == with_natural_scroll(
            parse_from(args, i, acc),
        ),
    decreases args.len() - i,
{
    if 0 <= i < args.len() {
        let a = args[i];
        lemma_parse_from_switch_on(args, i + 1, CliArgsView { natural_scroll: true, ..acc });
        lemma_parse_from_switch_on(args, i + 1, CliArgsView { debug: true, ..acc });
        assert(CliArgsView { natural_scroll: true, ..CliArgsView { debug: true, ..acc } }
            == CliArgsView { debug: true, ..CliArgsView { natural_scroll: true, ..acc } });
        if i + 1 < args.len() {
            let value = args[i + 1];
            let next = if a == "--exclude"@ {
                CliArgsView { excluded_bundle_ids: split_on(value, ','), ..acc }
            } else if numeric_flag(a) is Some {
                CliArgsView { numeric: acc.numeric.push((numeric_flag(a)->0, value)), ..acc }
            } else {
                with_click(acc, click_flag(a)->0, value)
            };
            lemma_parse_from_switch_on(args, i + 2, next);
        }
    }
}

/// Law: `--debug` in front of any arguments turns on the debug switch and
/// changes nothing else: the arguments read as without it, with `debug` on
/// (or fail as they fail without it).
pub proof fn lemma_debug_flag_sets_only_debug(rest: Seq<Seq<char>>)
    ensures
        parse_spec(seq!["--debug"@] + rest) == with_debug(parse_spec(rest)),
{
    lemma_flag_words_distinct();
    let p = seq!["--debug"@];
    let args = p + rest;
    assert(args[0] == "--debug"@);
    lemma_parse_from_switch_on(args, 1, default_args());
    lemma_parse_from_shift(p, rest, 0, default_args());
}

/// Law: `--natural-scroll` in front of any arguments turns on natural
/// scrolling and changes nothing else.
pub proof fn lemma_natural_scroll_flag_sets_only_natural_scroll(rest: Seq<Seq<char>>)
    ensures
        parse_spec(seq!["--natural-scroll"@] + rest) == with_natural_scroll(parse_spec(rest)),
{
    lemma_flag_words_distinct();
    let p = seq!["--natural-scroll"@];
    let args = p + rest;
    assert(args[0] == "--natural-scroll"@);
    lemma_parse_from_switch_on(args, 1, default_args());
    lemma_parse_from_shift(p, rest, 0, default_args());
}

/// A switch that reading turns on was on before or is named by one of the
/// arguments read.
proof fn lemma_switch_named(args: Seq<Seq<char>>, i: int, acc: CliArgsView)
    requires
        0 <= i,
    ensures
        parse_from(args, i, acc) matches Ok(c) ==> {
            &&& c.natural_scroll ==> acc.natural_scroll || exists|j: int|
                i <= j < args.len() && args[j] == "--natural-scroll"@
            &&& c.debug ==> acc.debug || exists|j: int| i <= j < args.len() && args[j] == "--debug"@
        },
    decreases args.len() - i,
{
    if i < args.len() {
        let a = args[i];
        lemma_switch_named(args, i + 1, CliArgsView { natural_scroll: true, ..acc });
        lemma_switch_named(args, i + 1, CliArgsView { debug: true, ..acc });
        if i + 1 < args.len() {
            let value = args[i + 1];
            let next = if a == "--exclude"@ {
                CliArgsView { excluded_bundle_ids: split_on(value, ','), ..acc }
            } else if numeric_flag(a) is Some {
                CliArgsView { numeric: acc.numeric.push((numeric_flag(a)->0, value)), ..acc }
            } else {
                with_click(acc, click_flag(a)->0, value)
            };
            lemma_switch_named(args, i + 2, next);
        }
    }
}

/// Law: each switch comes only from its own flag: arguments that read
/// successfully turn natural scrolling on only if `--natural-scroll` is among
/// them, and debugging only if `--debug` is.
pub proof fn lemma_switches_need_their_flags(args: Seq<Seq<char>>)
    ensures
        parse_spec(args) matches Ok(c) ==> {
            &&& c.natural_scroll ==> args.contains("--natural-scroll"@)
            &&& c.debug ==> args.contains("--debug"@)
        },
{
    lemma_switch_named(args, 0, default_args());
}

} // verus!
