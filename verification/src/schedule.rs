//! Startup parameters and the displayed countdown message.
//!
//! The start time is modelled as whole seconds into the day; chrono does
//! the wall-clock parsing through the trusted wrappers below, and all
//! arithmetic and formatting on the model is verified here.

use vstd::prelude::*;
use vstd::string::StringExecFns;
use crate::obj_parser::chars_of;

verus! {

/// Seconds in one day; times of day lie strictly below it.
pub const SECONDS_PER_DAY: u32 = 86400;

/// What chrono reads a wall-clock time-of-day text as: the hour, minute
/// and second of the parsed time, or `None` where the text is rejected. A
/// pure function of the text alone; only the trusted wrapper below says
/// anything about it.
pub uninterp spec fn chrono_hms_of(s: Seq<char>) -> Option<(u32, u32, u32)>;

/// Relies on chrono's `FromStr` for `NaiveTime`, which accepts the
/// `%H:%M:%S%.f` shapes its format module documents, and on the `Timelike`
/// getters `hour` (0 to 23), `minute` (0 to 59) and `second` (0 to 59; a
/// leap second reads as 59). The parse and the getters are pure functions
/// of the text, named together as `chrono_hms_of`.
#[verifier::external_body]
fn parse_hms(s: &str) -> (r: Option<(u32, u32, u32)>)
    ensures
        r == chrono_hms_of(s@),
        r matches Some(t) ==> t.0 < 24 && t.1 < 60 && t.2 < 60,
{
    match s.parse::<chrono::NaiveTime>() {
        Ok(t) => Some((
            chrono::Timelike::hour(&t),
            chrono::Timelike::minute(&t),
            chrono::Timelike::second(&t),
        )),
        Err(_) => None,
    }
}

/// Reads a wall-clock time of day as whole seconds into the day: exactly
/// the combination of the hour, minute and second chrono parses the text
/// to, and `None` exactly where chrono rejects it.
pub fn parse_time_of_day(s: &str) -> (r: Option<u32>)
    ensures
        ({
            match chrono_hms_of(s@) {
                Option::Some(t) => r == Option::Some((t.0 * 3600 + t.1 * 60 + t.2) as u32),
                Option::None => r is None,
            }
        }),
        chrono_hms_of(s@) matches Some(t) ==> t.0 < 24 && t.1 < 60 && t.2 < 60,
        r matches Some(v) ==> v < SECONDS_PER_DAY,
{
    match parse_hms(s) {
        Option::Some((h, m, sec)) => Option::Some(h * 3600 + m * 60 + sec),
        Option::None => Option::None,
    }
}

/// The two required startup parameters.
pub struct Args {
    /// When the stream starts, in seconds into the day.
    pub start_time: u32,
    /// The free-text topic label.
    pub topic: String,
}

/// Why the startup parameters could not be had; each ends in the usage
/// text and a non-zero exit.
#[derive(Clone, Copy, Debug, PartialEq, Eq, Structural)]
pub enum ArgsError {
    UnknownArg,
    MissingStartTime,
    InvalidStartTime,
    MissingTopic,
}

/// The flag scan: each `--start-time` or `--topic` takes the following
/// argument as its value (absent at the end of the list), later values
/// replacing earlier ones; any other argument is unknown (`None`).
pub open spec fn spec_parse_flags(
    args: Seq<Seq<char>>,
    st: Option<Seq<char>>,
    tp: Option<Seq<char>>,
) -> Option<(Option<Seq<char>>, Option<Seq<char>>)>
    decreases args.len(),
{
    if args.len() == 0 {
        Option::Some((st, tp))
    } else if args[0] == "--start-time"@ {
        if args.len() == 1 {
            spec_parse_flags(args.skip(1), Option::None, tp)
        } else {
            spec_parse_flags(args.skip(2), Option::Some(args[1]), tp)
        }
    } else if args[0] == "--topic"@ {
        if args.len() == 1 {
            spec_parse_flags(args.skip(1), st, Option::None)
        } else {
            spec_parse_flags(args.skip(2), st, Option::Some(args[1]))
        }
    } else {
        Option::None
    }
}

pub open spec fn view_opt_string(o: Option<String>) -> Option<Seq<char>> {
    match o {
        Option::Some(s) => Option::Some(s@),
        Option::None => Option::None,
    }
}

impl Args {
    /// Scans the arguments (program name excluded) for `--start-time` and
    /// `--topic`. Every outcome is pinned: the flag structure and the topic
    /// exactly, and the start time as the named result of chrono's parse —
    /// success is owed precisely when chrono accepts the value and a topic
    /// was given.
    pub fn parse(args: &Vec<String>) -> (r: Result<Args, ArgsError>)
        ensures
            ({
                let a = args.deep_view();
                match spec_parse_flags(a, Option::None, Option::None) {
                    Option::None => r == Result::<Args, ArgsError>::Err(ArgsError::UnknownArg),
                    Option::Some(flags) => match flags.0 {
                        Option::None => r == Result::<Args, ArgsError>::Err(
                            ArgsError::MissingStartTime,
                        ),
                        Option::Some(sv) => match chrono_hms_of(sv) {
                            Option::None => r == Result::<Args, ArgsError>::Err(
                                ArgsError::InvalidStartTime,
                            ),
                            Option::Some(t) => match flags.1 {
                                Option::None => r == Result::<Args, ArgsError>::Err(
                                    ArgsError::MissingTopic,
                                ),
                                Option::Some(tv) => {
                                    &&& r matches Result::Ok(got)
                                    &&& got.topic@ == tv
                                    &&& got.start_time == t.0 * 3600 + t.1 * 60 + t.2
                                    &&& got.start_time < SECONDS_PER_DAY
                                },
                            },
                        },
                    },
                }
            }),
    {
        let ghost a = args.deep_view();
        let flag_start = String::from_str("--start-time");
        let flag_topic = String::from_str("--topic");
        let mut st: Option<String> = Option::None;
        let mut tp: Option<String> = Option::None;
        let n = args.len();
        let mut i: usize = 0;
        proof {
            assert(a.skip(0) =~= a);
        }
        while i < n
            invariant
                i <= n,
                n == a.len(),
                a == args.deep_view(),
                flag_start@ == "--start-time"@,
                flag_topic@ == "--topic"@,
                spec_parse_flags(a, Option::None, Option::None) == spec_parse_flags(
                    a.skip(i as int),
                    view_opt_string(st),
                    view_opt_string(tp),
                ),
            decreases n - i,
        {
            let ghost pi: int = i as int;
            let ghost pst = view_opt_string(st);
            let ghost ptp = view_opt_string(tp);
            proof {
                assert(a.skip(pi)[0] == a[pi]);
                assert(a[pi] == args@[pi]@);
                assert(a.skip(pi).skip(1) =~= a.skip(pi + 1));
                if i + 2 <= n {
                    assert(a.skip(pi).skip(2) =~= a.skip(pi + 2));
                    assert(a.skip(pi)[1] == a[pi + 1]);
                    assert(a[pi + 1] == args@[pi + 1]@);
                }
            }
            let arg = &args[i];
            if *arg == flag_start {
                if i + 1 < n {
                    st = Option::Some(args[i + 1].clone());
                    i = i + 2;
                } else {
                    st = Option::None;
                    i = i + 1;
                }
                proof {
                    assert(a.skip(pi)[0] == "--start-time"@);
                    if pi + 2 <= n {
                        assert(view_opt_string(st) == Option::Some(a.skip(pi)[1]));
                        assert(spec_parse_flags(a.skip(pi), pst, ptp) == spec_parse_flags(
                            a.skip(pi).skip(2),
                            Option::Some(a.skip(pi)[1]),
                            ptp,
                        ));
                    } else {
                        assert(a.skip(pi).len() == 1);
                        assert(spec_parse_flags(a.skip(pi), pst, ptp) == spec_parse_flags(
                            a.skip(pi).skip(1),
                            Option::None,
                            ptp,
                        ));
                    }
                    assert(spec_parse_flags(a.skip(pi), pst, ptp) == spec_parse_flags(
                        a.skip(i as int),
                        view_opt_string(st),
                        view_opt_string(tp),
                    ));
                }
            } else if *arg == flag_topic {
                if i + 1 < n {
                    tp = Option::Some(args[i + 1].clone());
                    i = i + 2;
                } else {
                    tp = Option::None;
                    i = i + 1;
                }
                proof {
                    assert(a.skip(pi)[0] == "--topic"@);
                    if pi + 2 <= n {
                        assert(view_opt_string(tp) == Option::Some(a.skip(pi)[1]));
                        assert(spec_parse_flags(a.skip(pi), pst, ptp) == spec_parse_flags(
                            a.skip(pi).skip(2),
                            pst,
                            Option::Some(a.skip(pi)[1]),
                        ));
                    } else {
                        assert(a.skip(pi).len() == 1);
                        assert(spec_parse_flags(a.skip(pi), pst, ptp) == spec_parse_flags(
                            a.skip(pi).skip(1),
                            pst,
                            Option::None,
                        ));
                    }
                    assert(spec_parse_flags(a.skip(pi), pst, ptp) == spec_parse_flags(
                        a.skip(i as int),
                        view_opt_string(st),
                        view_opt_string(tp),
                    ));
                }
            } else {
                proof {
                    assert(spec_parse_flags(a.skip(pi), pst, ptp) is None);
                }
                return Result::Err(ArgsError::UnknownArg);
            }
        }
        proof {
            assert(a.skip(n as int) =~= Seq::<Seq<char>>::empty());
        }
        let st = match st {
            Option::Some(s) => s,
            Option::None => {
                return Result::Err(ArgsError::MissingStartTime);
            },
        };
        let start_time = match parse_time_of_day(st.as_str()) {
            Option::Some(v) => v,
            Option::None => {
                return Result::Err(ArgsError::InvalidStartTime);
            },
        };
        match tp {
            Option::Some(topic) => Result::Ok(Args { start_time, topic }),
            Option::None => Result::Err(ArgsError::MissingTopic),
        }
    }
}

/// The decimal digit character for `d` in 0 ..= 9.
pub open spec fn spec_digit_char(d: int) -> char {
    if d == 0 {
        '0'
    } else if d == 1 {
        '1'
    } else if d == 2 {
        '2'
    } else if d == 3 {
        '3'
    } else if d == 4 {
        '4'
    } else if d == 5 {
        '5'
    } else if d == 6 {
        '6'
    } else if d == 7 {
        '7'
    } else if d == 8 {
        '8'
    } else {
        '9'
    }
}

fn digit_char(d: u32) -> (r: char)
    requires
        d < 10,
    ensures
        r == spec_digit_char(d as int),
{
    if d == 0 {
        '0'
    } else if d == 1 {
        '1'
    } else if d == 2 {
        '2'
    } else if d == 3 {
        '3'
    } else if d == 4 {
        '4'
    } else if d == 5 {
        '5'
    } else if d == 6 {
        '6'
    } else if d == 7 {
        '7'
    } else if d == 8 {
        '8'
    } else {
        '9'
    }
}

/// A value in 0 ..= 99 as two digits.
pub open spec fn spec_two_digits(v: int) -> Seq<char> {
    seq![spec_digit_char(v / 10), spec_digit_char(v % 10)]
}

/// A time of day as zero-padded `HH:MM:SS`.
pub open spec fn spec_hms(secs: int) -> Seq<char> {
    spec_two_digits(secs / 3600) + seq![':'] + spec_two_digits((secs / 60) % 60) + seq![':']
        + spec_two_digits(secs % 60)
}

/// What `{:02}` prints for a value in -99 ..= 99: two zero-padded digits,
/// or a minus sign followed by the digits of the magnitude.
pub open spec fn spec_pad2(v: int) -> Seq<char> {
    if v >= 0 {
        spec_two_digits(v)
    } else if v > -10 {
        seq!['-', spec_digit_char(-v)]
    } else {
        seq!['-', spec_digit_char(-v / 10), spec_digit_char(-v % 10)]
    }
}

/// The countdown split the way signed truncating division does it: hours,
/// leftover minutes and leftover seconds, each taking the sign of the
/// difference.
pub open spec fn spec_remaining_parts(diff: int) -> (int, int, int) {
    if diff >= 0 {
        (diff / 3600, (diff / 60) % 60, diff % 60)
    } else {
        (-((-diff) / 3600), -(((-diff) / 60) % 60), -((-diff) % 60))
    }
}

/// The full typewriter target text, recomputed whenever the animation
/// cycle restarts.
pub open spec fn spec_stream_starting_string(
    start: int,
    now: int,
    topic: Seq<char>,
    program: Seq<char>,
) -> Seq<char> {
    let parts = spec_remaining_parts(start - now);
    "$ ./"@ + program + "\n\nToday's topic: "@ + topic + "\nStream starting at "@ + spec_hms(
        start,
    ) + "\n    Current time: "@ + spec_hms(now) + "\n    "@ + spec_pad2(parts.0) + seq![':']
        + spec_pad2(parts.1) + seq![':'] + spec_pad2(parts.2) + " 'till stream starts"@
}

fn append_chars(out: &mut Vec<char>, s: &Vec<char>)
    ensures
        final(out)@ == old(out)@ + s@,
{
    let n = s.len();
    let mut i: usize = 0;
    while i < n
        invariant
            i <= n,
            n == s@.len(),
            out@ == old(out)@ + s@.take(i as int),
        decreases n - i,
    {
        out.push(s[i]);
        proof {
            assert(out@ =~= old(out)@ + s@.take(i as int + 1));
        }
        i = i + 1;
    }
    proof {
        assert(out@ =~= old(out)@ + s@);
    }
}

fn push_two_digits(out: &mut Vec<char>, v: u32)
    requires
        v < 100,
    ensures
        final(out)@ == old(out)@ + spec_two_digits(v as int),
{
    out.push(digit_char(v / 10));
    out.push(digit_char(v % 10));
    proof {
        assert(out@ =~= old(out)@ + spec_two_digits(v as int));
    }
}

fn push_hms(out: &mut Vec<char>, secs: u32)
    requires
        secs < SECONDS_PER_DAY,
    ensures
        final(out)@ == old(out)@ + spec_hms(secs as int),
{
    proof {
        vstd::arithmetic::div_mod::lemma_div_is_ordered(secs as int, 86399, 3600);
        vstd::arithmetic::div_mod::lemma_mod_bound((secs as int) / 60, 60);
        vstd::arithmetic::div_mod::lemma_mod_bound(secs as int, 60);
        vstd::arithmetic::div_mod::lemma_div_pos_is_pos(secs as int, 3600);
        vstd::arithmetic::div_mod::lemma_div_pos_is_pos(secs as int, 60);
    }
    push_two_digits(out, secs / 3600);
    out.push(':');
    push_two_digits(out, (secs / 60) % 60);
    out.push(':');
    push_two_digits(out, secs % 60);
    proof {
        assert(out@ =~= old(out)@ + spec_hms(secs as int));
    }
}

fn push_pad2_signed(out: &mut Vec<char>, magnitude: u32, negative: bool)
    requires
        magnitude < 100,
        negative ==> magnitude > 0,
    ensures
        final(out)@ == old(out)@ + spec_pad2(
            if negative {
                -(magnitude as int)
            } else {
                magnitude as int
            },
        ),
{
    if negative {
        out.push('-');
        if magnitude < 10 {
            out.push(digit_char(magnitude));
        } else {
            out.push(digit_char(magnitude / 10));
            out.push(digit_char(magnitude % 10));
        }
        proof {
            assert(out@ =~= old(out)@ + spec_pad2(-(magnitude as int)));
        }
    } else {
        push_two_digits(out, magnitude);
    }
}

/// Builds the typewriter target text from the fixed start time, the live
/// current time and the topic, with the countdown zero-padded the way the
/// signed formatting of the original layout prints it.
pub fn stream_starting_string(start_time: u32, now: u32, topic: &String, program: &String) -> (r:
    Vec<char>)
    requires
        start_time < SECONDS_PER_DAY,
        now < SECONDS_PER_DAY,
    ensures
        r@ == spec_stream_starting_string(start_time as int, now as int, topic@, program@),
{
    let mut out: Vec<char> = Vec::new();
    let ghost parts = spec_remaining_parts(start_time - now);
    append_chars(&mut out, &chars_of("$ ./"));
    append_chars(&mut out, &chars_of(program.as_str()));
    append_chars(&mut out, &chars_of("\n\nToday's topic: "));
    append_chars(&mut out, &chars_of(topic.as_str()));
    append_chars(&mut out, &chars_of("\nStream starting at "));
    push_hms(&mut out, start_time);
    append_chars(&mut out, &chars_of("\n    Current time: "));
    push_hms(&mut out, now);
    append_chars(&mut out, &chars_of("\n    "));
    let diff_nonneg = start_time >= now;
    let d: u32 = if diff_nonneg {
        start_time - now
    } else {
        now - start_time
    };
    proof {
        vstd::arithmetic::div_mod::lemma_div_is_ordered(d as int, 86399, 3600);
        vstd::arithmetic::div_mod::lemma_mod_bound((d as int) / 60, 60);
        vstd::arithmetic::div_mod::lemma_mod_bound(d as int, 60);
        vstd::arithmetic::div_mod::lemma_div_pos_is_pos(d as int, 3600);
        vstd::arithmetic::div_mod::lemma_div_pos_is_pos(d as int, 60);
    }
    proof {
        assert(parts.0 == if !diff_nonneg && d / 3600 > 0 {
            -((d as int) / 3600)
        } else {
            (d as int) / 3600
        });
        assert(parts.1 == if !diff_nonneg && (d / 60) % 60 > 0 {
            -(((d as int) / 60) % 60)
        } else {
            ((d as int) / 60) % 60
        });
        assert(parts.2 == if !diff_nonneg && d % 60 > 0 {
            -((d as int) % 60)
        } else {
            (d as int) % 60
        });
    }
    push_pad2_signed(&mut out, d / 3600, !diff_nonneg && d / 3600 > 0);
    out.push(':');
    push_pad2_signed(&mut out, (d / 60) % 60, !diff_nonneg && (d / 60) % 60 > 0);
    out.push(':');
    push_pad2_signed(&mut out, d % 60, !diff_nonneg && d % 60 > 0);
    append_chars(&mut out, &chars_of(" 'till stream starts"));
    proof {
        assert(out@ =~= spec_stream_starting_string(
            start_time as int,
            now as int,
            topic@,
            program@,
        ));
    }
    out
}

} // verus!
