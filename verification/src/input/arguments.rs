//! Command-line argument parsing.
//!
//! The accepted command line is: any mix of long options (`--ppm`,
//! `--progress-bar`, `--blur`, `--outdir <DIR>`, `--help`, `--version`),
//! clustered short options (`-p`, `-o <DIR>`, `-h`, `-V`, or e.g. `-ph`),
//! and positional arguments, of which the first names the scene file.
//! `--help` or `--version` ask for an early exit.  The whole grammar is
//! stated by [`cli_outcome`], and [`Config::build`] is proved to decide it.

use vstd::prelude::*;
use vstd::string::StrSliceExecFns;
use vstd::string::StringExecFns;
use vstd::string::StringSliceAdditionalSpecFns;
use vstd::utf8::encode_utf8;

use crate::input::InputError;

verus! {

/// Equality of two string slices, decided character by character.
pub fn str_eq(a: &str, b: &str) -> (r: bool)
    ensures
        r == (a@ == b@),
{
    let alen = a.unicode_len();
    let blen = b.unicode_len();
    if alen != blen {
        return false;
    }
    let mut i: usize = 0;
    while i < alen
        invariant
            alen == a@.len(),
            alen == b@.len(),
            0 <= i <= alen,
            forall|j: int| 0 <= j < i ==> a@[j] == b@[j],
        decreases alen - i,
    {
        if a.get_char(i) != b.get_char(i) {
            return false;
        }
        i += 1;
    }
    proof {
        assert(a@ =~= b@);
    }
    true
}

/// The long name of option number `k`.
pub open spec fn opt_long(k: int) -> Seq<char> {
    if k == 0 {
        "ppm"@
    } else if k == 1 {
        "progress-bar"@
    } else if k == 2 {
        "blur"@
    } else if k == 3 {
        "outdir"@
    } else if k == 4 {
        "help"@
    } else {
        "version"@
    }
}

/// Which option a single short-option character stands for.
pub open spec fn short_index(c: char) -> Option<int> {
    if c == 'p' {
        Option::Some(1)
    } else if c == 'o' {
        Option::Some(3)
    } else if c == 'h' {
        Option::Some(4)
    } else if c == 'V' {
        Option::Some(5)
    } else {
        Option::None
    }
}

/// Which option a long name stands for.
pub open spec fn long_index(name: Seq<char>) -> Option<int> {
    if name == opt_long(0) {
        Option::Some(0)
    } else if name == opt_long(1) {
        Option::Some(1)
    } else if name == opt_long(2) {
        Option::Some(2)
    } else if name == opt_long(3) {
        Option::Some(3)
    } else if name == opt_long(4) {
        Option::Some(4)
    } else if name == opt_long(5) {
        Option::Some(5)
    } else {
        Option::None
    }
}

/// Only `outdir` carries a value.
pub open spec fn opt_takes_value(k: int) -> bool {
    k == 3
}

/// Everything the command line decides.
pub struct CliState {
    pub ppm: bool,
    pub progress: bool,
    pub blur: bool,
    pub help: bool,
    pub version: bool,
    pub outdir: Seq<char>,
    pub input: Option<Seq<char>>,
}

/// The ways a command line is rejected.
pub enum CliError {
    UnknownLong(Seq<char>),
    UnknownShort(Seq<char>),
    MissingValue(int),
    MissingInput,
}

/// What a command line asks for: an early exit (help or version), a
/// configuration, or a rejection.
pub enum CliOutcome {
    EarlyExit,
    Accept(CliState),
    Reject(CliError),
}

/// The state before any argument is read.
pub open spec fn initial_state() -> CliState {
    CliState {
        ppm: false,
        progress: false,
        blur: false,
        help: false,
        version: false,
        outdir: "output"@,
        input: Option::None,
    }
}

/// Record that toggle option `k` was given.
pub open spec fn set_flag(st: CliState, k: int) -> CliState {
    if k == 0 {
        CliState { ppm: true, ..st }
    } else if k == 1 {
        CliState { progress: true, ..st }
    } else if k == 2 {
        CliState { blur: true, ..st }
    } else if k == 4 {
        CliState { help: true, ..st }
    } else {
        CliState { version: true, ..st }
    }
}

/// Record the value of the one value-carrying option.
pub open spec fn set_value(st: CliState, v: Seq<char>) -> CliState {
    CliState { outdir: v, ..st }
}

/// Record a positional argument; only the first one counts.
pub open spec fn note_input(st: CliState, arg: Seq<char>) -> CliState {
    if st.input is Some {
        st
    } else {
        CliState { input: Option::Some(arg), ..st }
    }
}

/// Every character of a short-option cluster names an option.
pub open spec fn cluster_ok(cluster: Seq<char>) -> bool {
    forall|j: int| 0 <= j < cluster.len() ==> short_index(cluster[j]) is Some
}

/// One pass over the arguments from position `i` on, with `st` read so far.
pub open spec fn parse_from(args: Seq<Seq<char>>, i: int, st: CliState) -> Result<
    CliState,
    CliError,
>
    decreases args.len() - i, 0int, 0int,
{
    if i < 0 || i >= args.len() {
        Result::Ok(st)
    } else {
        let arg = args[i];
        if arg.len() >= 2 && arg[0] == '-' && arg[1] == '-' {
            let name = arg.subrange(2, arg.len() as int);
            match long_index(name) {
                Option::Some(k) => if opt_takes_value(k) {
                    if i + 1 < args.len() {
                        parse_from(args, i + 2, set_value(st, args[i + 1]))
                    } else {
                        Result::Err(CliError::MissingValue(k))
                    }
                } else {
                    parse_from(args, i + 1, set_flag(st, k))
                },
                Option::None => Result::Err(CliError::UnknownLong(name)),
            }
        } else if arg.len() >= 1 && arg[0] == '-' {
            let cluster = arg.subrange(1, arg.len() as int);
            if cluster_ok(cluster) {
                parse_cluster(args, i + 1, cluster, 0, st)
            } else {
                Result::Err(CliError::UnknownShort(cluster))
            }
        } else {
            parse_from(args, i + 1, note_input(st, arg))
        }
    }
}

/// Apply the options of one short cluster from character `j` on; `i` is the
/// position of the next unread argument, from which values are taken.
pub open spec fn parse_cluster(
    args: Seq<Seq<char>>,
    i: int,
    cluster: Seq<char>,
    j: int,
    st: CliState,
) -> Result<CliState, CliError>
    decreases args.len() - i, 1int, cluster.len() - j,
{
    if j < 0 || j >= cluster.len() {
        parse_from(args, i, st)
    } else {
        match short_index(cluster[j]) {
            Option::Some(k) => if opt_takes_value(k) {
                if 0 <= i < args.len() {
                    parse_cluster(args, i + 1, cluster, j + 1, set_value(st, args[i]))
                } else {
                    Result::Err(CliError::MissingValue(k))
                }
            } else {
                parse_cluster(args, i, cluster, j + 1, set_flag(st, k))
            },
            Option::None => Result::Err(CliError::UnknownShort(cluster)),
        }
    }
}

/// What a whole command line (argument 0 being the binary name) asks for.
pub open spec fn cli_outcome(args: Seq<Seq<char>>) -> CliOutcome {
    match parse_from(args, 1, initial_state()) {
        Result::Err(e) => CliOutcome::Reject(e),
        Result::Ok(st) => if st.help || st.version {
            CliOutcome::EarlyExit
        } else if st.input is Some {
            CliOutcome::Accept(st)
        } else {
            CliOutcome::Reject(CliError::MissingInput)
        },
    }
}

/// Whether a command line's early exit asks for the help text: among the
/// two early exits, help is checked first and wins.
pub open spec fn help_asked(args: Seq<Seq<char>>) -> bool {
    match parse_from(args, 1, initial_state()) {
        Result::Ok(st) => st.help,
        Result::Err(_) => false,
    }
}

/// The title that every argument error carries.
pub open spec fn error_title() -> Seq<char> {
    "Error while parsing Arguments"@
}

/// The message text of each rejection.
pub open spec fn error_message(e: CliError) -> Seq<char> {
    match e {
        CliError::UnknownLong(name) => "Unknown long option '"@ + name + "'"@,
        CliError::UnknownShort(cluster) => if encode_utf8(cluster).len() > 1 {
            "Unknown short options '"@ + cluster + "'"@
        } else {
            "Unknown short option '"@ + cluster + "'"@
        },
        CliError::MissingValue(k) => "Expected value for option "@ + opt_long(k),
        CliError::MissingInput => "Missing input path"@,
    }
}

/// The mathematical value of a `Config`.
pub struct ConfigView {
    pub input_file: Seq<char>,
    pub progress_bar: bool,
    pub ppm: bool,
    pub blur: bool,
    pub outdir: Seq<char>,
}

/// A `Config` reports what the command line decided.
pub open spec fn config_matches(c: ConfigView, st: CliState) -> bool {
    &&& st.input matches Option::Some(f) && c.input_file == f
    &&& c.progress_bar == st.progress
    &&& c.ppm == st.ppm
    &&& c.blur == st.blur
    &&& c.outdir == st.outdir
}

/// The configuration of one run of the ray tracer.
#[derive(Debug)]
pub struct Config {
    input_file: String,
    progress_bar: bool,
    ppm: bool,
    blur: bool,
    outdir: String,
}

impl View for Config {
    type V = ConfigView;

    closed spec fn view(&self) -> ConfigView {
        ConfigView {
            input_file: self.input_file@,
            progress_bar: self.progress_bar,
            ppm: self.ppm,
            blur: self.blur,
            outdir: self.outdir@,
        }
    }
}

impl Config {
    /// A configuration with nothing set and the default output directory.
    fn default() -> (c: Config)
        ensures
            c@.ppm == false,
            c@.progress_bar == false,
            c@.blur == false,
            c@.outdir == "output"@,
            c@.input_file == Seq::<char>::empty(),
    {
        Config {
            input_file: String::new(),
            progress_bar: false,
            ppm: false,
            blur: false,
            outdir: String::from_str("output"),
        }
    }

    /// Wrap a message as an argument-specific `InputError`.
    fn parse_err(msg: &str) -> (r: InputError)
        ensures
            r@.title == error_title(),
            r@.msg == msg@,
    {
        InputError::new(String::from_str("Error while parsing Arguments"), msg.to_owned())
    }

    /// Decide which option a long name (already stripped of `--`) stands
    /// for, or report the unknown name.
    fn parse_longopt(arg: &str) -> (r: Result<usize, InputError>)
        ensures
            match long_index(arg@) {
                Option::Some(k) => r matches Result::Ok(u) && u as int == k,
                Option::None => r matches Result::Err(e) && e@.title == error_title() && e@.msg
                    == error_message(CliError::UnknownLong(arg@)),
            },
    {
        if str_eq(arg, "ppm") {
            Result::Ok(0)
        } else if str_eq(arg, "progress-bar") {
            Result::Ok(1)
        } else if str_eq(arg, "blur") {
            Result::Ok(2)
        } else if str_eq(arg, "outdir") {
            Result::Ok(3)
        } else if str_eq(arg, "help") {
            Result::Ok(4)
        } else if str_eq(arg, "version") {
            Result::Ok(5)
        } else {
            let mut m = String::from_str("Unknown long option '");
            m.append(arg);
            m.append("'");
            Result::Err(Self::parse_err(m.as_str()))
        }
    }

    /// Decide which options a short cluster (already stripped of `-`)
    /// stands for, each character on its own, or report the unknown one.
    fn parse_shortopt(arg: &str) -> (r: Result<Vec<usize>, InputError>)
        ensures
            match r {
                Result::Ok(v) => {
                    &&& cluster_ok(arg@)
                    &&& v@.len() == arg@.len()
                    &&& forall|j: int|
                        0 <= j < v@.len() ==> short_index(arg@[j]) == Option::Some(v@[j] as int)
                },
                Result::Err(e) => {
                    &&& !cluster_ok(arg@)
                    &&& e@.title == error_title()
                    &&& e@.msg == error_message(CliError::UnknownShort(arg@))
                },
            },
    {
        let n = arg.unicode_len();
        let mut found: Vec<usize> = Vec::new();
        let mut j: usize = 0;
        while j < n
            invariant
                n == arg@.len(),
                0 <= j <= n,
                found@.len() == j,
                forall|j2: int|
                    0 <= j2 < j ==> short_index(arg@[j2]) == Option::Some(found@[j2] as int),
            decreases n - j,
        {
            let c = arg.get_char(j);
            let k: usize = if c == 'p' {
                1
            } else if c == 'o' {
                3
            } else if c == 'h' {
                4
            } else if c == 'V' {
                5
            } else {
                proof {
                    assert(short_index(arg@[j as int]) is None);
                    assert(!cluster_ok(arg@));
                }
                let bytes = arg.as_bytes();
                proof {
                    assert(bytes@ == encode_utf8(arg@));
                }
                let plural = bytes.len() > 1;
                let mut m = String::from_str(
                    if plural {
                        "Unknown short options '"
                    } else {
                        "Unknown short option '"
                    },
                );
                m.append(arg);
                m.append("'");
                proof {
                    assert(plural == (encode_utf8(arg@).len() > 1));
                    assert(m@ == error_message(CliError::UnknownShort(arg@)));
                }
                return Result::Err(Self::parse_err(m.as_str()));
            };
            found.push(k);
            j += 1;
        }
        Result::Ok(found)
    }

    /// One pass over the whole command line: the configuration read so
    /// far, the two early-exit flags, and the first positional argument.
    fn parse_all(args: &[String]) -> (r: Result<(Config, bool, bool, Option<String>), InputError>)
        ensures
            match r {
                Result::Ok(t) => parse_from(args.deep_view(), 1, initial_state()) == Result::<
                    CliState,
                    CliError,
                >::Ok(st_of(&t.0, t.1, t.2, &t.3)),
                Result::Err(e) => {
                    &&& parse_from(args.deep_view(), 1, initial_state()) matches Result::Err(k)
                    &&& e@.title == error_title()
                    &&& e@.msg == error_message(k)
                },
            },
    {
        let ghost vs: Seq<Seq<char>> = args.deep_view();
        let mut config = Config::default();
        let mut help: bool = false;
        let mut version: bool = false;
        let mut input: Option<String> = Option::None;
        let mut i: usize = 1;

        proof {
            assert(st_of(&config, help, version, &input) == initial_state());
        }
        while i < args.len()
            invariant
                1 <= i,
                i <= args.len() || args.len() == 0,
                vs == args.deep_view(),
                vs.len() == args.len(),
                parse_from(vs, 1, initial_state()) == parse_from(
                    vs,
                    i as int,
                    st_of(&config, help, version, &input),
                ),
            decreases args.len() - i,
        {
            let ghost st = st_of(&config, help, version, &input);
            proof {
                assert(vs[i as int] == args[i as int]@);
            }
            let a: &str = args[i].as_str();
            let n = a.unicode_len();
            if n >= 2 && a.get_char(0) == '-' && a.get_char(1) == '-' {
                let name = a.substring_char(2, n);
                match Self::parse_longopt(name) {
                    Result::Err(e) => {
                        proof {
                            assert(parse_from(vs, i as int, st) == Result::<
                                CliState,
                                CliError,
                            >::Err(CliError::UnknownLong(name@)));
                        }
                        return Result::Err(e);
                    },
                    Result::Ok(k) => {
                        if k == 3 {
                            if i + 1 < args.len() {
                                config.outdir = args[i + 1].clone();
                                proof {
                                    assert(vs[i + 1] == args[i + 1 as int]@);
                                    assert(parse_from(vs, i as int, st) == parse_from(
                                        vs,
                                        i + 2,
                                        st_of(&config, help, version, &input),
                                    ));
                                }
                                i += 2;
                            } else {
                                proof {
                                    assert(parse_from(vs, i as int, st) == Result::<
                                        CliState,
                                        CliError,
                                    >::Err(CliError::MissingValue(3)));
                                }
                                let m = String::from_str("Expected value for option ").concat(
                                    "outdir",
                                );
                                return Result::Err(Self::parse_err(m.as_str()));
                            }
                        } else {
                            if k == 0 {
                                config.ppm = true;
                            } else if k == 1 {
                                config.progress_bar = true;
                            } else if k == 2 {
                                config.blur = true;
                            } else if k == 4 {
                                help = true;
                            } else {
                                version = true;
                            }
                            proof {
                                assert(st_of(&config, help, version, &input) == set_flag(
                                    st,
                                    k as int,
                                ));
                                assert(parse_from(vs, i as int, st) == parse_from(
                                    vs,
                                    i + 1,
                                    set_flag(st, k as int),
                                ));
                            }
                            i += 1;
                        }
                    },
                }
            } else if n >= 1 && a.get_char(0) == '-' {
                let cluster = a.substring_char(1, n);
                match Self::parse_shortopt(cluster) {
                    Result::Err(e) => {
                        proof {
                            assert(parse_from(vs, i as int, st) == Result::<
                                CliState,
                                CliError,
                            >::Err(CliError::UnknownShort(cluster@)));
                        }
                        return Result::Err(e);
                    },
                    Result::Ok(shorts) => {
                        proof {
                            assert(parse_from(vs, i as int, st) == parse_cluster(
                                vs,
                                i + 1,
                                cluster@,
                                0,
                                st,
                            ));
                        }
                        i += 1;
                        let ghost i_entry = i as int;
                        let mut j: usize = 0;
                        while j < shorts.len()
                            invariant
                                1 <= i,
                                i_entry <= i,
                                i <= args.len(),
                                vs == args.deep_view(),
                                vs.len() == args.len(),
                                shorts@.len() == cluster@.len(),
                                0 <= j <= shorts@.len(),
                                forall|j2: int|
                                    0 <= j2 < shorts@.len() ==> short_index(cluster@[j2])
                                        == Option::Some(shorts@[j2] as int),
                                parse_from(vs, 1, initial_state()) == parse_cluster(
                                    vs,
                                    i as int,
                                    cluster@,
                                    j as int,
                                    st_of(&config, help, version, &input),
                                ),
                            decreases shorts@.len() - j,
                        {
                            let ghost stj = st_of(&config, help, version, &input);
                            let k = shorts[j];
                            proof {
                                assert(short_index(cluster@[j as int]) == Option::Some(k as int));
                            }
                            if k == 3 {
                                if i < args.len() {
                                    config.outdir = args[i].clone();
                                    proof {
                                        assert(vs[i as int] == args[i as int]@);
                                        assert(parse_cluster(vs, i as int, cluster@, j as int, stj)
                                            == parse_cluster(
                                            vs,
                                            i + 1,
                                            cluster@,
                                            j + 1,
                                            st_of(&config, help, version, &input),
                                        ));
                                    }
                                    i += 1;
                                } else {
                                    proof {
                                        assert(parse_cluster(vs, i as int, cluster@, j as int, stj)
                                            == Result::<CliState, CliError>::Err(
                                            CliError::MissingValue(3),
                                        ));
                                    }
                                    let m = String::from_str("Expected value for option ").concat(
                                        "outdir",
                                    );
                                    return Result::Err(Self::parse_err(m.as_str()));
                                }
                            } else {
                                if k == 1 {
                                    config.progress_bar = true;
                                } else if k == 4 {
                                    help = true;
                                } else {
                                    version = true;
                                }
                                proof {
                                    assert(st_of(&config, help, version, &input) == set_flag(
                                        stj,
                                        k as int,
                                    ));
                                    assert(parse_cluster(vs, i as int, cluster@, j as int, stj)
                                        == parse_cluster(
                                        vs,
                                        i as int,
                                        cluster@,
                                        j + 1,
                                        set_flag(stj, k as int),
                                    ));
                                }
                            }
                            j += 1;
                        }
                        proof {
                            assert(parse_cluster(
                                vs,
                                i as int,
                                cluster@,
                                j as int,
                                st_of(&config, help, version, &input),
                            ) == parse_from(vs, i as int, st_of(&config, help, version, &input)));
                        }
                    },
                }
            } else {
                if input.is_none() {
                    input = Option::Some(args[i].clone());
                }
                proof {
                    assert(st_of(&config, help, version, &input) == note_input(st, vs[i as int]));
                    assert(parse_from(vs, i as int, st) == parse_from(
                        vs,
                        i + 1,
                        note_input(st, vs[i as int]),
                    ));
                }
                i += 1;
            }
        }
        proof {
            assert(parse_from(vs, i as int, st_of(&config, help, version, &input)) == Result::<
                CliState,
                CliError,
            >::Ok(st_of(&config, help, version, &input)));
        }
        Result::Ok((config, help, version, input))
    }

    /// Build a configuration from the arguments (argument 0 being the
    /// binary name).  `Ok(None)` asks the caller to print the help or the
    /// version text and exit.
    pub fn build(args: &[String]) -> (r: Result<Option<Config>, InputError>)
        ensures
            match r {
                Result::Ok(oc) => match oc {
                    Option::None => cli_outcome(args.deep_view()) is EarlyExit,
                    Option::Some(c) => cli_outcome(args.deep_view()) matches CliOutcome::Accept(st)
                        && config_matches(c@, st),
                },
                Result::Err(e) => {
                    &&& cli_outcome(args.deep_view()) matches CliOutcome::Reject(k)
                    &&& e@.title == error_title()
                    &&& e@.msg == error_message(k)
                },
            },
    {
        let parsed = match Self::parse_all(args) {
            Result::Err(e) => {
                return Result::Err(e);
            },
            Result::Ok(t) => t,
        };
        let (mut config, help, version, input) = parsed;
        if help || version {
            return Result::Ok(Option::None);
        }
        match input {
            Option::None => Result::Err(Self::parse_err("Missing input path")),
            Option::Some(f) => {
                config.input_file = f;
                Result::Ok(Option::Some(config))
            },
        }
    }

    /// Whether the command line asks for the help text on its early
    /// exit, so that the caller prints the right message.
    pub fn help_requested(args: &[String]) -> (r: bool)
        ensures
            r == help_asked(args.deep_view()),
    {
        match Self::parse_all(args) {
            Result::Ok(t) => t.1,
            Result::Err(_) => false,
        }
    }

    /// Was `--progress-bar` (or `-p`) given?
    pub fn progress_bar(&self) -> (r: bool)
        ensures
            r == self@.progress_bar,
    {
        self.progress_bar
    }

    /// Was `--ppm` given?
    pub fn ppm(&self) -> (r: bool)
        ensures
            r == self@.ppm,
    {
        self.ppm
    }

    /// Was `--blur` given?
    pub fn blur(&self) -> (r: bool)
        ensures
            r == self@.blur,
    {
        self.blur
    }

    /// The output directory (the last `--outdir`/`-o` value, or `output`).
    pub fn outdir(&self) -> (r: &str)
        ensures
            r@ == self@.outdir,
    {
        self.outdir.as_str()
    }

    /// The scene file path: the first positional argument.
    pub fn get_input(&self) -> (r: &str)
        ensures
            r@ == self@.input_file,
    {
        self.input_file.as_str()
    }
}

/// The parse state that the given locals of `build` stand for.
spec fn st_of(config: &Config, help: bool, version: bool, input: &Option<String>) -> CliState {
    CliState {
        ppm: config@.ppm,
        progress: config@.progress_bar,
        blur: config@.blur,
        help: help,
        version: version,
        outdir: config@.outdir,
        input: input.deep_view(),
    }
}

} // verus!
