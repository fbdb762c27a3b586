//! When GPU frame timing is sampled: the requested sampling interval, read
//! as a decimal `u32`, and the frame counter that picks the sampled frames.
use vstd::prelude::*;
use vstd::string::*;

verus! {

/// Why a decimal `u32` could not be read, as Rust's integer parser reports it.
#[derive(Clone, Copy, Debug, PartialEq, Eq, Structural)]
pub enum ParseIntKind {
    /// Nothing to read.
    Empty,
    /// A character that is not a decimal digit, or a lone sign.
    InvalidDigit,
    /// The number does not fit a `u32`.
    PosOverflow,
}

/// Value of a decimal digit character.
pub open spec fn digit_value(c: char) -> Option<int> {
    if '0' <= c && c <= '9' {
        Some(c as int - '0' as int)
    } else {
        None
    }
}

/// Read digits from position `i` on, with `acc` read so far: each character
/// must be a digit, and the value must stay within `u32` after every digit.
pub open spec fn scan_digits(s: Seq<char>, i: int, acc: int) -> Result<int, ParseIntKind>
    decreases s.len() - i,
{
    if i >= s.len() || i < 0 {
        Ok(acc)
    } else {
        match digit_value(s[i]) {
            None => Err(ParseIntKind::InvalidDigit),
            Some(d) => {
                let next = acc * 10 + d;
                if next > u32::MAX {
                    Err(ParseIntKind::PosOverflow)
                } else {
                    scan_digits(s, i + 1, next)
                }
            },
        }
    }
}

/// Rust's `u32` parse of `s`: empty text is refused, a lone sign is an invalid
/// digit, one leading `+` is allowed, and the rest must be decimal digits.
pub open spec fn parse_u32_spec(s: Seq<char>) -> Result<int, ParseIntKind> {
    if s.len() == 0 {
        Err(ParseIntKind::Empty)
    } else if s.len() == 1 && (s[0] == '+' || s[0] == '-') {
        Err(ParseIntKind::InvalidDigit)
    } else if s[0] == '+' {
        scan_digits(s, 1, 0)
    } else {
        scan_digits(s, 0, 0)
    }
}

/// Read a decimal `u32` as Rust's integer parser does.
pub fn parse_u32(s: &str) -> (r: Result<u32, ParseIntKind>)
    ensures
        match (r, parse_u32_spec(s@)) {
            (Ok(v), Ok(w)) => v == w,
            (Err(a), Err(b)) => a == b,
            _ => false,
        },
{
    let n = s.unicode_len();
    if n == 0 {
        return Err(ParseIntKind::Empty);
    }
    let first = s.get_char(0);
    if n == 1 && (first == '+' || first == '-') {
        return Err(ParseIntKind::InvalidDigit);
    }
    let mut i: usize = if first == '+' {
        1
    } else {
        0
    };
    let ghost start = i as int;
    let mut acc: u32 = 0;
    while i < n
        invariant
            n == s@.len(),
            n > 0,
            start <= i <= n,
            start == (if s@[0] == '+' {
                1int
            } else {
                0int
            }),
            parse_u32_spec(s@) == scan_digits(s@, i as int, acc as int),
        decreases n - i,
    {
        let c = s.get_char(i);
        if c < '0' || c > '9' {
            return Err(ParseIntKind::InvalidDigit);
        }
        let d = (c as u32) - ('0' as u32);
        if acc > (u32::MAX - d) / 10 {
            assert(acc * 10 + d > u32::MAX) by (nonlinear_arith)
                requires
                    acc > (u32::MAX - d) / 10,
                    d <= 9,
            ;
            return Err(ParseIntKind::PosOverflow);
        }
        assert(acc * 10 + d <= u32::MAX) by (nonlinear_arith)
            requires
                acc <= (u32::MAX - d) / 10,
                d <= 9,
        ;
        acc = acc * 10 + d;
        i = i + 1;
    }
    Ok(acc)
}

/// Why the requested profiling interval was refused.
#[derive(Clone, Copy, Debug, PartialEq, Eq, Structural)]
pub enum IntervalError {
    /// The text is not a `u32`.
    NotANumber(ParseIntKind),
    /// An interval of zero frames samples nothing.
    Zero,
}

/// The sampling interval asked for by the text of the setting: a positive
/// decimal `u32`.
pub fn profile_interval(text: &str) -> (r: Result<u32, IntervalError>)
    ensures
        match parse_u32_spec(text@) {
            Ok(v) => if v == 0 {
                r == Err::<u32, IntervalError>(IntervalError::Zero)
            } else {
                r == Ok::<u32, IntervalError>(v as u32)
            },
            Err(k) => r == Err::<u32, IntervalError>(IntervalError::NotANumber(k)),
        },
{
    match parse_u32(text) {
        Ok(0) => Err(IntervalError::Zero),
        Ok(v) => Ok(v),
        Err(k) => Err(IntervalError::NotANumber(k)),
    }
}

/// Counts frames and says which ones are timed: every `every_frames`-th.
pub struct FrameSampler {
    every_frames: u32,
    frame: u64,
}

/// `n` is a multiple of `m`, as Rust's `is_multiple_of` decides it: only 0 is
/// a multiple of 0.
pub open spec fn is_multiple_of_spec(n: u64, m: u64) -> bool {
    if m == 0 {
        n == 0
    } else {
        n % m == 0
    }
}

impl FrameSampler {
    pub closed spec fn every(&self) -> u32 {
        self.every_frames
    }

    /// Frames begun so far.
    pub closed spec fn frames(&self) -> u64 {
        self.frame
    }

    pub fn new(every_frames: u32) -> (s: Self)
        ensures
            s.every() == every_frames,
            s.frames() == 0,
    {
        FrameSampler { every_frames, frame: 0 }
    }

    pub fn frame(&self) -> (f: u64)
        ensures
            f == self.frames(),
    {
        self.frame
    }

    /// Count a new frame; returns whether it is one to time.
    pub fn begin_frame(&mut self) -> (timed: bool)
        requires
            old(self).frames() < u64::MAX,
        ensures
            final(self).frames() == old(self).frames() + 1,
            final(self).every() == old(self).every(),
            timed == is_multiple_of_spec(final(self).frames(), old(self).every() as u64),
    {
        self.frame = self.frame + 1;
        let m = self.every_frames as u64;
        if m == 0 {
            self.frame == 0
        } else {
            self.frame % m == 0
        }
    }
}

/// With a positive interval the sampler times exactly one frame in every
/// `every` consecutive ones: frame `k * every` and no frame in between.
pub proof fn sampled_frames_are_evenly_spaced(every: u64, k: u64, j: u64)
    requires
        every > 0,
        0 < j < every,
        k * every + j <= u64::MAX,
    ensures
        is_multiple_of_spec((k * every) as u64, every),
        !is_multiple_of_spec((k * every + j) as u64, every),
{
    vstd::arithmetic::div_mod::lemma_mod_multiples_basic(k as int, every as int);
    vstd::arithmetic::div_mod::lemma_fundamental_div_mod_converse(
        (k * every + j) as int,
        every as int,
        k as int,
        j as int,
    );
}

} // verus!
