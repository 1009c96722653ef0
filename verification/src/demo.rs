//! The demo's command line and the names of the squiggles it generates.

use vstd::prelude::*;

use crate::text::same_text;

verus! {

/// Samples per generated squiggle unless the command line says otherwise.
pub const DEFAULT_SAMPLE_COUNT: usize = 1000;

/// What `--help` prints, and what follows an unrecognised argument.
pub const USAGE: &'static str = "Usage: squiggle-app [--squiggles N] [--samples N]\n\n  --squiggles N  put N squiggles on the plot at startup (default 0)\n  --samples N    samples per generated squiggle (default 1000)\n";

/// Startup options gathered from the command line.
#[derive(Clone, Copy, Debug, PartialEq, Eq, Structural)]
pub struct DemoOptions {
    /// How many squiggles to put on the plot at startup.
    pub seed_count: usize,
    /// How many samples each generated squiggle carries.
    pub sample_count: usize,
}

/// The options a plain start runs with: an empty plot, and the default
/// sample count for squiggles added later.
pub open spec fn default_options() -> DemoOptions {
    DemoOptions { seed_count: 0, sample_count: DEFAULT_SAMPLE_COUNT }
}

impl Default for DemoOptions {
    fn default() -> (options: Self)
        ensures
            options == default_options(),
    {
        DemoOptions { seed_count: 0, sample_count: DEFAULT_SAMPLE_COUNT }
    }
}

/// Whether `c` is an ASCII decimal digit.
pub open spec fn is_digit(c: char) -> bool {
    '0' <= c <= '9'
}

/// The number an ASCII digit stands for.
pub open spec fn digit_value(c: char) -> int {
    c as int - '0' as int
}

/// The value of a run of decimal digits, most significant first.
pub open spec fn decimal_value(digits: Seq<char>) -> int
    decreases digits.len(),
{
    if digits.len() == 0 {
        0
    } else {
        decimal_value(digits.drop_last()) * 10 + digit_value(digits.last())
    }
}

/// `text` without the one leading `+` that a count may carry.
pub open spec fn unsigned_digits(text: Seq<char>) -> Seq<char> {
    if text.len() > 0 && text[0] == '+' {
        text.drop_first()
    } else {
        text
    }
}

/// Whether every character of `s` is a decimal digit.
pub open spec fn all_digits(s: Seq<char>) -> bool {
    forall|i: int| 0 <= i < s.len() ==> is_digit(#[trigger] s[i])
}

/// What std's `FromStr` for `usize` reads from `text`: an optional `+`, then
/// one or more decimal digits and nothing else, whose value fits in a `usize`.
pub open spec fn count_from_text(text: Seq<char>) -> Option<usize> {
    let digits = unsigned_digits(text);
    if digits.len() > 0 && all_digits(digits) && decimal_value(digits) <= usize::MAX {
        Some(decimal_value(digits) as usize)
    } else {
        None
    }
}

/// Reads a count with std's `str::parse::<usize>`, which accepts an optional
/// `+` followed by decimal digits whose value fits in a `usize`, and rejects
/// anything else (an empty text, any other character, an overflow).
#[verifier::external_body]
fn parse_count(text: &str) -> (count: Option<usize>)
    ensures
        count == count_from_text(text@),
{
    text.parse::<usize>().ok()
}

/// What the demo makes of `args`, starting from `options`: each flag takes
/// the number after it and later flags win; anything else is an error.
pub open spec fn demo_options_from(args: Seq<Seq<char>>, options: DemoOptions) -> Result<
    DemoOptions,
    Seq<char>,
>
    decreases args.len(),
{
    if args.len() == 0 {
        Ok(options)
    } else {
        let argument = args[0];
        if argument == "--squiggles"@ || argument == "--samples"@ {
            let value = if args.len() > 1 {
                count_from_text(args[1])
            } else {
                None
            };
            match value {
                None => Err(argument + " needs a number"@),
                Some(count) => {
                    let next = if argument == "--squiggles"@ {
                        DemoOptions { seed_count: count, ..options }
                    } else {
                        DemoOptions { sample_count: count, ..options }
                    };
                    demo_options_from(args.skip(2), next)
                },
            }
        } else if argument == "--help"@ || argument == "-h"@ {
            Err(USAGE@)
        } else {
            Err("unrecognised argument: "@ + argument + "\n\n"@ + USAGE@)
        }
    }
}

/// Arguments read in full carry their options over to whatever follows:
/// reading `first + rest` is reading `rest` from where `first` left off.
pub proof fn lemma_options_carry_over(
    first: Seq<Seq<char>>,
    rest: Seq<Seq<char>>,
    options: DemoOptions,
    carried: DemoOptions,
)
    requires
        demo_options_from(first, options) == Ok::<DemoOptions, Seq<char>>(carried),
    ensures
        demo_options_from(first + rest, options) == demo_options_from(rest, carried),
    decreases first.len(),
{
    if first.len() == 0 {
        assert(first + rest =~= rest);
    } else {
        let whole = first + rest;
        assert(whole[0] == first[0]);
        assert(first.len() > 1);
        assert(whole[1] == first[1]);
        assert(whole.skip(2) =~= first.skip(2) + rest);
        let argument = first[0];
        let count = count_from_text(first[1])->0;
        let next = if argument == "--squiggles"@ {
            DemoOptions { seed_count: count, ..options }
        } else {
            DemoOptions { sample_count: count, ..options }
        };
        lemma_options_carry_over(first.skip(2), rest, next, carried);
    }
}

/// A flag given twice keeps the later value: after any arguments that read
/// in full, `--samples` sets the sample count and `--squiggles` the seed
/// count, whatever came before.
pub proof fn lemma_later_flags_win(
    first: Seq<Seq<char>>,
    value: Seq<char>,
    options: DemoOptions,
    carried: DemoOptions,
    count: usize,
)
    requires
        demo_options_from(first, options) == Ok::<DemoOptions, Seq<char>>(carried),
        count_from_text(value) == Some(count),
    ensures
        demo_options_from(first + seq!["--samples"@, value], options) == Ok::<
            DemoOptions,
            Seq<char>,
        >(DemoOptions { sample_count: count, ..carried }),
        demo_options_from(first + seq!["--squiggles"@, value], options) == Ok::<
            DemoOptions,
            Seq<char>,
        >(DemoOptions { seed_count: count, ..carried }),
{
    reveal_strlit("--samples");
    reveal_strlit("--squiggles");
    let samples = seq!["--samples"@, value];
    let squiggles = seq!["--squiggles"@, value];
    lemma_options_carry_over(first, samples, options, carried);
    lemma_options_carry_over(first, squiggles, options, carried);
    assert("--samples"@[3] != "--squiggles"@[3]);
    let set_samples = DemoOptions { sample_count: count, ..carried };
    let set_seeds = DemoOptions { seed_count: count, ..carried };
    assert(samples.skip(2) =~= Seq::<Seq<char>>::empty());
    assert(squiggles.skip(2) =~= Seq::<Seq<char>>::empty());
    assert(demo_options_from(samples.skip(2), set_samples) == Ok::<DemoOptions, Seq<char>>(
        set_samples,
    ));
    assert(demo_options_from(squiggles.skip(2), set_seeds) == Ok::<DemoOptions, Seq<char>>(
        set_seeds,
    ));
    assert(demo_options_from(samples, carried) == demo_options_from(samples.skip(2), set_samples));
    assert(demo_options_from(squiggles, carried) == demo_options_from(
        squiggles.skip(2),
        set_seeds,
    ));
}

/// A flag with nothing after it is an error naming the flag, never a silent
/// default, whatever came before it.
pub proof fn lemma_missing_value_is_an_error(
    first: Seq<Seq<char>>,
    flag: Seq<char>,
    options: DemoOptions,
    carried: DemoOptions,
)
    requires
        demo_options_from(first, options) == Ok::<DemoOptions, Seq<char>>(carried),
        flag == "--samples"@ || flag == "--squiggles"@,
    ensures
        demo_options_from(first + seq![flag], options) == Err::<DemoOptions, Seq<char>>(
            flag + " needs a number"@,
        ),
{
    lemma_options_carry_over(first, seq![flag], options, carried);
}

/// Whether `argument` is one of the two flags that take a count.
pub open spec fn is_count_flag(argument: Seq<char>) -> bool {
    argument == "--squiggles"@ || argument == "--samples"@
}

/// Whether `args` come in flag/number pairs: an even number of them, each
/// pair a count flag followed by a text that reads as a count.
pub open spec fn well_paired(args: Seq<Seq<char>>) -> bool {
    &&& args.len() % 2 == 0
    &&& forall|i: int|
        0 <= i < args.len() && i % 2 == 0 ==> is_count_flag(#[trigger] args[i])
            && count_from_text(args[i + 1]) is Some
}

/// The count given after the last `flag` among the pairs of `args`, or
/// `fallback` when `flag` is never given.
pub open spec fn last_given(args: Seq<Seq<char>>, flag: Seq<char>, fallback: usize) -> usize
    decreases args.len(),
{
    if args.len() < 2 {
        fallback
    } else if args[args.len() - 2] == flag {
        count_from_text(args[args.len() - 1])->0
    } else {
        last_given(args.take(args.len() - 2), flag, fallback)
    }
}

/// Pairing survives dropping the first pair.
proof fn lemma_paired_tail(args: Seq<Seq<char>>)
    requires
        args.len() >= 2,
    ensures
        well_paired(args) <==> (is_count_flag(args[0]) && count_from_text(args[1]) is Some
            && well_paired(args.skip(2))),
{
    let tail = args.skip(2);
    if well_paired(args) {
        assert(is_count_flag(args[0]));
        assert forall|i: int| 0 <= i < tail.len() && i % 2 == 0 implies is_count_flag(
            #[trigger] tail[i],
        ) && count_from_text(tail[i + 1]) is Some by {
            assert(tail[i] == args[i + 2]);
            assert(tail[i + 1] == args[i + 3]);
            assert(is_count_flag(args[i + 2]));
        }
    }
    if is_count_flag(args[0]) && count_from_text(args[1]) is Some && well_paired(tail) {
        assert forall|i: int| 0 <= i < args.len() && i % 2 == 0 implies is_count_flag(
            #[trigger] args[i],
        ) && count_from_text(args[i + 1]) is Some by {
            if i >= 2 {
                assert(args[i] == tail[i - 2]);
                assert(args[i + 1] == tail[i - 1]);
                assert(is_count_flag(tail[i - 2]));
            }
        }
    }
}

/// Pairing survives dropping the last pair.
proof fn lemma_paired_front(args: Seq<Seq<char>>)
    requires
        well_paired(args),
        args.len() >= 2,
    ensures
        well_paired(args.take(args.len() - 2)),
        is_count_flag(args[args.len() - 2]),
        count_from_text(args[args.len() - 1]) is Some,
{
    let n = args.len() as int;
    let front = args.take(n - 2);
    assert(is_count_flag(args[n - 2]));
    assert forall|i: int| 0 <= i < front.len() && i % 2 == 0 implies is_count_flag(
        #[trigger] front[i],
    ) && count_from_text(front[i + 1]) is Some by {
        assert(front[i] == args[i]);
        assert(front[i + 1] == args[i + 1]);
        assert(is_count_flag(args[i]));
    }
}

/// The command line reads exactly when it is made of flag/number pairs.
proof fn lemma_ok_iff_paired(args: Seq<Seq<char>>, options: DemoOptions)
    ensures
        demo_options_from(args, options) is Ok <==> well_paired(args),
    decreases args.len(),
{
    reveal_strlit("--squiggles");
    reveal_strlit("--samples");
    reveal_strlit("--help");
    reveal_strlit("-h");
    if args.len() == 0 {
    } else if args.len() == 1 {
        assert(!well_paired(args)) by {
            assert(args.len() % 2 == 1);
        }
    } else {
        lemma_paired_tail(args);
        let argument = args[0];
        if is_count_flag(argument) {
            match count_from_text(args[1]) {
                None => {},
                Some(count) => {
                    let next = if argument == "--squiggles"@ {
                        DemoOptions { seed_count: count, ..options }
                    } else {
                        DemoOptions { sample_count: count, ..options }
                    };
                    lemma_ok_iff_paired(args.skip(2), next);
                },
            }
        }
    }
}

/// What well-paired arguments read as: each count is the one given after the
/// last flag that sets it, or the starting value when no flag does.
proof fn lemma_paired_values(args: Seq<Seq<char>>, options: DemoOptions)
    requires
        well_paired(args),
    ensures
        demo_options_from(args, options) == Ok::<DemoOptions, Seq<char>>(
            DemoOptions {
                seed_count: last_given(args, "--squiggles"@, options.seed_count),
                sample_count: last_given(args, "--samples"@, options.sample_count),
            },
        ),
    decreases args.len(),
{
    reveal_strlit("--squiggles");
    reveal_strlit("--samples");
    if args.len() == 0 {
    } else {
        assert(args.len() >= 2) by {
            assert(args.len() % 2 == 0);
        }
        let n = args.len() as int;
        let front = args.take(n - 2);
        let pair = seq![args[n - 2], args[n - 1]];
        lemma_paired_front(args);
        lemma_paired_values(front, options);
        let carried = DemoOptions {
            seed_count: last_given(front, "--squiggles"@, options.seed_count),
            sample_count: last_given(front, "--samples"@, options.sample_count),
        };
        assert(front + pair =~= args);
        lemma_options_carry_over(front, pair, options, carried);
        let count = count_from_text(args[n - 1])->0;
        assert(pair[0] == args[n - 2]);
        assert(pair[1] == args[n - 1]);
        assert("--samples"@[3] != "--squiggles"@[3]);
        let next = if args[n - 2] == "--squiggles"@ {
            DemoOptions { seed_count: count, ..carried }
        } else {
            DemoOptions { sample_count: count, ..carried }
        };
        assert(pair.skip(2) =~= Seq::<Seq<char>>::empty());
        assert(demo_options_from(pair.skip(2), next) == Ok::<DemoOptions, Seq<char>>(next));
        assert(demo_options_from(pair, carried) == demo_options_from(pair.skip(2), next));
    }
}

/// The whole reading of the command line. Starting from `options`, the
/// arguments read without error exactly when they come in flag/number pairs;
/// then each count is the one given after the last flag that sets it, or its
/// starting value when no flag does. After any arguments that read, `--help`
/// or `-h` answers with the usage text.
pub proof fn lemma_command_line(
    args: Seq<Seq<char>>,
    options: DemoOptions,
    help: Seq<char>,
    after: Seq<Seq<char>>,
)
    requires
        help == "--help"@ || help == "-h"@,
    ensures
        demo_options_from(args, options) is Ok <==> well_paired(args),
        well_paired(args) ==> demo_options_from(args, options) == Ok::<DemoOptions, Seq<char>>(
            DemoOptions {
                seed_count: last_given(args, "--squiggles"@, options.seed_count),
                sample_count: last_given(args, "--samples"@, options.sample_count),
            },
        ),
        well_paired(args) ==> demo_options_from(args + seq![help] + after, options) == Err::<
            DemoOptions,
            Seq<char>,
        >(USAGE@),
{
    lemma_ok_iff_paired(args, options);
    if well_paired(args) {
        lemma_paired_values(args, options);
        let carried = DemoOptions {
            seed_count: last_given(args, "--squiggles"@, options.seed_count),
            sample_count: last_given(args, "--samples"@, options.sample_count),
        };
        let rest = seq![help] + after;
        assert(args + seq![help] + after =~= args + rest);
        lemma_options_carry_over(args, rest, options, carried);
        reveal_strlit("--squiggles");
        reveal_strlit("--samples");
        reveal_strlit("--help");
        reveal_strlit("-h");
        assert(rest[0] == help);
        assert(help.len() != "--squiggles"@.len() || help[2] != "--squiggles"@[2]);
        assert(help.len() != "--samples"@.len() || help[2] != "--samples"@[2]);
    }
}

/// The characters of each argument.
pub open spec fn arg_texts(args: Seq<String>) -> Seq<Seq<char>> {
    args.map_values(|a: String| a@)
}

impl DemoOptions {
    /// Parses the arguments after the program name.
    pub fn from_args(args: Vec<String>) -> (parsed: Result<Self, String>)
        ensures
            parsed matches Ok(options) ==> demo_options_from(arg_texts(args@), default_options())
                == Ok::<DemoOptions, Seq<char>>(options),
            parsed matches Err(message) ==> demo_options_from(
                arg_texts(args@),
                default_options(),
            ) == Err::<DemoOptions, Seq<char>>(message@),
    {
        let ghost texts = arg_texts(args@);
        let mut options = DemoOptions::default();
        let mut i: usize = 0;
        let n = args.len();
        proof {
            assert(texts.skip(0) =~= texts);
        }
        while i < n
            invariant
                n == args@.len(),
                texts == arg_texts(args@),
                i <= n,
                demo_options_from(texts, default_options()) == demo_options_from(
                    texts.skip(i as int),
                    options,
                ),
            decreases n - i,
        {
            let argument = args[i].as_str();
            let ghost rest = texts.skip(i as int);
            assert(rest[0] == argument@);
            let squiggles = same_text(argument, "--squiggles");
            let samples = same_text(argument, "--samples");
            if squiggles || samples {
                let value = if i + 1 < n {
                    parse_count(args[i + 1].as_str())
                } else {
                    None
                };
                proof {
                    if i + 1 < n {
                        assert(rest[1] == args@[i + 1]@);
                    }
                }
                match value {
                    None => {
                        let mut message = String::from_str(argument);
                        message.append(" needs a number");
                        return Err(message);
                    },
                    Some(count) => {
                        if squiggles {
                            options.seed_count = count;
                        } else {
                            options.sample_count = count;
                        }
                        proof {
                            assert(rest.skip(2) =~= texts.skip(i + 2));
                        }
                        i = i + 2;
                    },
                }
            } else if same_text(argument, "--help") || same_text(argument, "-h") {
                return Err(String::from_str(USAGE));
            } else {
                let mut message = String::from_str("unrecognised argument: ");
                message.append(argument);
                message.append("\n\n");
                message.append(USAGE);
                return Err(message);
            }
        }
        proof {
            assert(texts.skip(i as int) =~= seq![]);
        }
        Ok(options)
    }
}

/// The decimal digit character for `d`.
pub open spec fn digit_char(d: int) -> char {
    ('0' as int + d) as char
}

/// `n` written in decimal, without sign or leading zeros.
pub open spec fn decimal_text(n: nat) -> Seq<char>
    decreases n,
{
    if n < 10 {
        seq![digit_char(n as int)]
    } else {
        decimal_text(n / 10).push(digit_char((n % 10) as int))
    }
}

/// The decimal text of a count reads back as that count: it is a non-empty
/// run of digits whose value is the count, and it starts with a zero only
/// when the count is zero.
pub proof fn lemma_decimal_text_reads_back(n: nat)
    ensures
        decimal_text(n).len() > 0,
        all_digits(decimal_text(n)),
        decimal_value(decimal_text(n)) == n,
        decimal_text(n)[0] == '0' ==> n == 0,
    decreases n,
{
    if n >= 10 {
        lemma_decimal_text_reads_back(n / 10);
        let front = decimal_text(n / 10);
        let whole = decimal_text(n);
        assert(whole.drop_last() =~= front);
        assert(whole[0] == front[0]);
        let d = (n % 10) as int;
        assert(whole.last() == digit_char(d));
        assert(digit_value(digit_char(d)) == d);
        assert(decimal_value(whole) == decimal_value(front) * 10 + d);
        assert((n / 10) * 10 + n % 10 == n);
        assert forall|i: int| 0 <= i < whole.len() implies is_digit(#[trigger] whole[i]) by {
            if i < front.len() {
                assert(whole[i] == front[i]);
            }
        }
    } else {
        let whole = decimal_text(n);
        assert(whole.drop_last() =~= Seq::<char>::empty());
        assert(digit_value(digit_char(n as int)) == n);
        assert(decimal_value(whole) == decimal_value(whole.drop_last()) * 10 + digit_value(
            whole.last(),
        ));
    }
}

/// Renders a count with std's `Display` for `usize`, which writes it in
/// decimal with no sign and no leading zeros.
#[verifier::external_body]
fn count_text(n: usize) -> (text: String)
    ensures
        text@ == decimal_text(n as nat),
{
    n.to_string()
}

/// The name the demo gives its `index`th squiggle.
pub fn squiggle_name(index: usize) -> (name: String)
    ensures
        name@ == "Squiggle "@ + decimal_text(index as nat),
{
    let mut name = String::from_str("Squiggle ");
    let number = count_text(index);
    name.append(number.as_str());
    name
}


/// The sidebar's entry for a squiggle: its name and how many samples it has.
pub fn squiggle_label(name: &str, count: usize) -> (label: String)
    ensures
        label@ == name@ + " ("@ + decimal_text(count as nat) + " pts)"@,
{
    let mut label = String::from_str(name);
    label.append(" (");
    let number = count_text(count);
    label.append(number.as_str());
    label.append(" pts)");
    label
}

} // verus!
