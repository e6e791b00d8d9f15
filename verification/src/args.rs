use vstd::prelude::*;

verus! {

/// The display unit a byte count is converted into: decimal powers of
/// 1000, so each unit is a thousand times the one before.
#[derive(Clone, Copy, Debug, PartialEq, Eq, Structural)]
pub enum SizeUnit {
    Byte,
    KiloByte,
    MegaByte,
    GigaByte,
}

impl SizeUnit {
    /// The unit's power-of-1000 rank: bytes are rank 0, each next unit
    /// one higher.
    pub open spec fn spec_rank(self) -> int {
        match self {
            SizeUnit::Byte => 0,
            SizeUnit::KiloByte => 1,
            SizeUnit::MegaByte => 2,
            SizeUnit::GigaByte => 3,
        }
    }

    /// The unit's power-of-1000 rank, for converting a byte count into a
    /// display value.
    pub fn rank(&self) -> (r: u8)
        ensures
            r as int == self.spec_rank(),
    {
        match self {
            SizeUnit::Byte => 0,
            SizeUnit::KiloByte => 1,
            SizeUnit::MegaByte => 2,
            SizeUnit::GigaByte => 3,
        }
    }

    /// The unit's display label.
    pub fn label(&self) -> (r: &'static str)
        ensures
            *self == SizeUnit::Byte ==> r@ == "B"@,
            *self == SizeUnit::KiloByte ==> r@ == "KB"@,
            *self == SizeUnit::MegaByte ==> r@ == "MB"@,
            *self == SizeUnit::GigaByte ==> r@ == "GB"@,
    {
        match self {
            SizeUnit::Byte => "B",
            SizeUnit::KiloByte => "KB",
            SizeUnit::MegaByte => "MB",
            SizeUnit::GigaByte => "GB",
        }
    }
}

/// How reading one command-line argument can fail.
#[derive(Clone, Copy, Debug, PartialEq, Eq, Structural)]
pub enum ArgError {
    /// A flag the tool does not know.
    Unrecognized,
    /// The thread-count flag came last, with no number after it.
    MissingThreadCount,
    /// The value after the thread-count flag is not a number an eight-bit
    /// count can hold.
    InvalidThreadCount,
}

/// Whether a character is a decimal digit.
pub open spec fn is_digit(c: char) -> bool {
    48 <= (c as u32) && (c as u32) <= 57
}

/// Whether a character sequence is a nonempty run of decimal digits.
pub open spec fn digits_ok(s: Seq<char>) -> bool {
    s.len() > 0 && forall|i: int| 0 <= i < s.len() ==> is_digit(#[trigger] s[i])
}

/// The number a run of decimal digits denotes.
pub open spec fn digits_val(s: Seq<char>) -> int
    decreases s.len(),
{
    if s.len() == 0 {
        0
    } else {
        digits_val(s.drop_last()) * 10 + ((s.last() as u32) - 48)
    }
}

/// The digits of a number written with an optional leading plus sign.
pub open spec fn unsigned_body(s: Seq<char>) -> Seq<char> {
    if s.len() > 0 && s[0] == '+' {
        s.drop_first()
    } else {
        s
    }
}

/// The eight-bit number a string denotes, if it denotes one: an optional
/// plus sign, then decimal digits, with a value at most 255.
pub open spec fn parsed_u8(s: Seq<char>) -> Option<u8> {
    let d = unsigned_body(s);
    if digits_ok(d) && digits_val(d) <= u8::MAX {
        Some(digits_val(d) as u8)
    } else {
        None
    }
}

proof fn lemma_digits_val_nonneg(s: Seq<char>)
    requires
        forall|i: int| 0 <= i < s.len() ==> is_digit(#[trigger] s[i]),
    ensures
        digits_val(s) >= 0,
    decreases s.len(),
{
    if s.len() > 0 {
        assert forall|i: int| 0 <= i < s.drop_last().len() implies is_digit(
            #[trigger] s.drop_last()[i],
        ) by {
            assert(s.drop_last()[i] == s[i]);
        }
        lemma_digits_val_nonneg(s.drop_last());
    }
}

/// A prefix of a digit run never denotes more than the whole run.
proof fn lemma_digits_val_take_le(s: Seq<char>, k: int)
    requires
        forall|i: int| 0 <= i < s.len() ==> is_digit(#[trigger] s[i]),
        0 <= k <= s.len(),
    ensures
        digits_val(s.take(k)) <= digits_val(s),
    decreases s.len(),
{
    if k == s.len() {
        assert(s.take(k) =~= s);
    } else {
        assert forall|i: int| 0 <= i < s.drop_last().len() implies is_digit(
            #[trigger] s.drop_last()[i],
        ) by {
            assert(s.drop_last()[i] == s[i]);
        }
        assert(s.take(k) =~= s.drop_last().take(k));
        lemma_digits_val_take_le(s.drop_last(), k);
        lemma_digits_val_nonneg(s.drop_last());
    }
}

/// Reads an eight-bit number: an optional plus sign, then decimal digits.
#[verifier::loop_isolation(false)]
pub fn parse_u8(s: &str) -> (r: Result<u8, ArgError>)
    ensures
        match parsed_u8(s@) {
            Some(n) => r == Ok::<u8, ArgError>(n),
            None => r == Err::<u8, ArgError>(ArgError::InvalidThreadCount),
        },
{
    let len = s.unicode_len();
    let start: usize = if len > 0 && s.get_char(0) == '+' {
        1
    } else {
        0
    };
    let ghost d = unsigned_body(s@);
    proof {
        if start == 1 {
            assert(d =~= s@.drop_first());
        }
        assert(d.len() == len - start);
        assert(forall|k: int| 0 <= k < d.len() ==> d[k] == s@[k + start]);
    }
    if start == len {
        return Err(ArgError::InvalidThreadCount);
    }
    let mut acc: u32 = 0;
    let mut i: usize = start;
    while i < len
        invariant
            start <= i <= len,
            forall|k: int| 0 <= k < i - start ==> is_digit(#[trigger] d[k]),
            acc as int == digits_val(d.take(i - start)),
            acc <= 255,
        decreases len - i,
    {
        let c = s.get_char(i);
        proof {
            assert(d[i - start] == c);
        }
        let code = c as u32;
        if code < 48 || code > 57 {
            proof {
                assert(!is_digit(d[i - start]));
            }
            return Err(ArgError::InvalidThreadCount);
        }
        acc = acc * 10 + (code - 48);
        proof {
            assert(d.take(i - start + 1).drop_last() =~= d.take(i - start));
            assert(d.take(i - start + 1).last() == d[i - start]);
        }
        if acc > 255 {
            proof {
                if digits_ok(d) {
                    lemma_digits_val_take_le(d, i - start + 1);
                }
            }
            return Err(ArgError::InvalidThreadCount);
        }
        i = i + 1;
    }
    proof {
        assert(d.take(i - start) =~= d);
    }
    Ok(acc as u8)
}

/// Compares two strings character by character.
fn str_eq(a: &str, b: &str) -> (r: bool)
    ensures
        r == (a@ == b@),
{
    let a_len = a.unicode_len();
    let b_len = b.unicode_len();
    if a_len != b_len {
        return false;
    }
    let mut i: usize = 0;
    while i < a_len
        invariant
            i <= a_len,
            a_len as int == a@.len(),
            a@.len() == b@.len(),
            forall|k: int| 0 <= k < i ==> a@[k] == b@[k],
        decreases a_len - i,
    {
        if a.get_char(i) != b.get_char(i) {
            return false;
        }
        i = i + 1;
    }
    proof {
        assert(a@ =~= b@);
    }
    true
}

/// The spec-level content of a parsed argument set.
#[verifier::ext_equal]
pub struct ArgsView {
    pub path: Seq<char>,
    pub timed: bool,
    pub size_unit: SizeUnit,
    pub thread_count: u8,
}

/// The settings a run works with: the root path to scan, whether to time
/// the run, the unit sizes are shown in, and the concurrency bound.
pub struct RunArgs {
    path: String,
    timed: bool,
    size_unit: SizeUnit,
    thread_count: u8,
}

impl View for RunArgs {
    type V = ArgsView;

    closed spec fn view(&self) -> ArgsView {
        ArgsView {
            path: self.path@,
            timed: self.timed,
            size_unit: self.size_unit,
            thread_count: self.thread_count,
        }
    }
}

/// What reading one argument does to the settings. An argument with no
/// leading dash names the path to scan; a dashed flag switches timing on,
/// sets the display unit, or takes the next argument as the thread count.
pub open spec fn arg_step(v: ArgsView, arg: Seq<char>, next: Option<Seq<char>>) -> Result<
    ArgsView,
    ArgError,
> {
    if arg.len() == 0 || arg[0] != '-' {
        Ok(ArgsView { path: arg, ..v })
    } else {
        let flag = arg.subrange(1, arg.len() as int);
        if flag == "t"@ {
            Ok(ArgsView { timed: true, ..v })
        } else if flag == "tc"@ {
            match next {
                Some(value) => match parsed_u8(value) {
                    Some(n) => Ok(ArgsView { thread_count: n, ..v }),
                    None => Err(ArgError::InvalidThreadCount),
                },
                None => Err(ArgError::MissingThreadCount),
            }
        } else if flag == "b"@ || flag == "B"@ {
            Ok(ArgsView { size_unit: SizeUnit::Byte, ..v })
        } else if flag == "kb"@ || flag == "KB"@ {
            Ok(ArgsView { size_unit: SizeUnit::KiloByte, ..v })
        } else if flag == "mb"@ || flag == "MB"@ {
            Ok(ArgsView { size_unit: SizeUnit::MegaByte, ..v })
        } else if flag == "gb"@ || flag == "GB"@ {
            Ok(ArgsView { size_unit: SizeUnit::GigaByte, ..v })
        } else {
            Err(ArgError::Unrecognized)
        }
    }
}

/// What a whole argument list folds to, read left to right: the first
/// failing argument wins, and each flag may look one argument ahead.
pub open spec fn args_fold(v: ArgsView, rest: Seq<Seq<char>>) -> Result<ArgsView, ArgError>
    decreases rest.len(),
{
    if rest.len() == 0 {
        Ok(v)
    } else {
        let next = if rest.len() >= 2 {
            Some(rest[1])
        } else {
            None
        };
        match arg_step(v, rest[0], next) {
            Ok(v2) => args_fold(v2, rest.drop_first()),
            Err(e) => Err(e),
        }
    }
}

/// A command line after its first element, the program's own name, as
/// character sequences.
pub open spec fn tail_of(args: Seq<String>) -> Seq<Seq<char>> {
    if args.len() == 0 {
        Seq::empty()
    } else {
        args.map_values(|s: String| s@).skip(1)
    }
}

impl RunArgs {
    /// Makes the settings that hold before any argument is read: the
    /// given starting path and concurrency bound, untimed, kilobytes.
    pub fn new(path: String, thread_count: u8) -> (r: RunArgs)
        ensures
            r@ == (ArgsView {
                path: path@,
                timed: false,
                size_unit: SizeUnit::KiloByte,
                thread_count: thread_count,
            }),
    {
        RunArgs { path, timed: false, size_unit: SizeUnit::KiloByte, thread_count }
    }

    /// Applies one argument to the settings, looking one argument ahead
    /// for a flag that takes a value; a failing argument leaves the
    /// settings unchanged.
    pub fn with_arg(&mut self, arg: &str, next_arg: Option<&String>) -> (r: Result<(), ArgError>)
        ensures
            ({
                let step = arg_step(
                    old(self)@,
                    arg@,
                    match next_arg {
                        Some(s) => Some(s@),
                        None => None::<Seq<char>>,
                    },
                );
                match step {
                    Ok(v) => r is Ok && final(self)@ == v,
                    Err(e) => r == Err::<(), ArgError>(e) && final(self)@ == old(self)@,
                }
            }),
    {
        let len = arg.unicode_len();
        if len == 0 || arg.get_char(0) != '-' {
            self.path = arg.to_owned();
            proof {
                assert(self@ =~= (ArgsView { path: arg@, ..old(self)@ }));
            }
            return Ok(());
        }
        let flag = arg.substring_char(1, len);
        if str_eq(flag, "t") {
            self.timed = true;
            proof {
                assert(self@ =~= (ArgsView { timed: true, ..old(self)@ }));
            }
            Ok(())
        } else if str_eq(flag, "tc") {
            match next_arg {
                Some(value) => match parse_u8(value.as_str()) {
                    Ok(n) => {
                        self.thread_count = n;
                        proof {
                            assert(self@ =~= (ArgsView { thread_count: n, ..old(self)@ }));
                        }
                        Ok(())
                    },
                    Err(e) => Err(e),
                },
                None => Err(ArgError::MissingThreadCount),
            }
        } else if str_eq(flag, "b") || str_eq(flag, "B") {
            self.size_unit = SizeUnit::Byte;
            proof {
                assert(self@ =~= (ArgsView { size_unit: SizeUnit::Byte, ..old(self)@ }));
            }
            Ok(())
        } else if str_eq(flag, "kb") || str_eq(flag, "KB") {
            self.size_unit = SizeUnit::KiloByte;
            proof {
                assert(self@ =~= (ArgsView { size_unit: SizeUnit::KiloByte, ..old(self)@ }));
            }
            Ok(())
        } else if str_eq(flag, "mb") || str_eq(flag, "MB") {
            self.size_unit = SizeUnit::MegaByte;
            proof {
                assert(self@ =~= (ArgsView { size_unit: SizeUnit::MegaByte, ..old(self)@ }));
            }
            Ok(())
        } else if str_eq(flag, "gb") || str_eq(flag, "GB") {
            self.size_unit = SizeUnit::GigaByte;
            proof {
                assert(self@ =~= (ArgsView { size_unit: SizeUnit::GigaByte, ..old(self)@ }));
            }
            Ok(())
        } else {
            Err(ArgError::Unrecognized)
        }
    }

    /// Reads a whole command line, starting from the given defaults. The
    /// first element is the program's own name and is skipped; the first
    /// failing argument stops the read.
    #[verifier::loop_isolation(false)]
    pub fn from_args(defaults: RunArgs, args: &Vec<String>) -> (r: Result<RunArgs, ArgError>)
        ensures
            match args_fold(defaults@, tail_of(args@)) {
                Ok(v) => r is Ok && r->Ok_0@ == v,
                Err(e) => r == Err::<RunArgs, ArgError>(e),
            },
    {
        let ghost t = tail_of(args@);
        let mut run_args = defaults;
        if args.len() == 0 {
            return Ok(run_args);
        }
        let mut i: usize = 1;
        proof {
            assert(t.skip(0) =~= t);
        }
        while i < args.len()
            invariant
                1 <= i <= args@.len(),
                args_fold(defaults@, t) == args_fold(run_args@, t.skip(i - 1)),
            decreases args@.len() - i,
        {
            let next: Option<&String> = if i + 1 < args.len() {
                Some(&args[i + 1])
            } else {
                None
            };
            let ghost rest = t.skip(i - 1);
            proof {
                assert(rest.len() == args@.len() - i);
                assert(rest[0] == args@[i as int]@);
                if i + 1 < args@.len() {
                    assert(rest[1] == args@[i + 1]@);
                }
            }
            let arg = &args[i];
            match run_args.with_arg(arg.as_str(), next) {
                Ok(()) => {},
                Err(e) => {
                    return Err(e);
                },
            }
            proof {
                assert(t.skip(i - 1).drop_first() =~= t.skip(i as int));
            }
            i = i + 1;
        }
        proof {
            assert(t.skip(i - 1) =~= Seq::<Seq<char>>::empty());
        }
        Ok(run_args)
    }

    /// The path whose immediate children will be ranked.
    pub fn get_path(&self) -> (r: &String)
        ensures
            r@ == self@.path,
    {
        &self.path
    }

    /// Whether the run should be timed.
    pub fn is_timed(&self) -> (r: bool)
        ensures
            r == self@.timed,
    {
        self.timed
    }

    /// The unit sizes are shown in.
    pub fn get_size_unit(&self) -> (r: SizeUnit)
        ensures
            r == self@.size_unit,
    {
        self.size_unit
    }

    /// The concurrency bound for size-computation tasks.
    pub fn get_thread_count(&self) -> (r: u8)
        ensures
            r == self@.thread_count,
    {
        self.thread_count
    }
}

} // verus!
