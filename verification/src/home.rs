use vstd::prelude::*;

verus! {

// The home screen's seed entry.  The windowing front end feeds typed text
// and key presses in; the rules for what the input box holds and which seed
// a confirmed input denotes live here.

/// An ASCII decimal digit.
pub open spec fn is_digit(b: u8) -> bool {
    0x30 <= b <= 0x39
}

pub open spec fn all_digits(s: Seq<u8>) -> bool {
    forall|i: int| 0 <= i < s.len() ==> is_digit(#[trigger] s[i])
}

/// The value of a digit string, most significant digit first.
pub open spec fn dec_value(s: Seq<u8>) -> int
    decreases s.len(),
{
    if s.len() == 0 {
        0
    } else {
        dec_value(s.take(s.len() - 1)) * 10 + (s.last() - 0x30)
    }
}

/// The decimal representation of a non-negative number.
pub open spec fn dec_repr(n: int) -> Seq<u8>
    decreases n,
{
    if n < 10 {
        seq![(0x30 + if n >= 0 {
            n
        } else {
            0
        }) as u8]
    } else {
        dec_repr(n / 10).push((0x30 + n % 10) as u8)
    }
}

/// The seed a confirmed input denotes: its decimal value when the input is
/// a non-empty digit string whose value fits in u32, and zero otherwise.
pub open spec fn seed_of(s: Seq<u8>) -> u32 {
    if s.len() > 0 && all_digits(s) && dec_value(s) <= u32::MAX {
        dec_value(s) as u32
    } else {
        0
    }
}

/// Parses a seed as the confirmation of the input box does.
pub fn parse_seed(input: &Vec<u8>) -> (r: u32)
    ensures
        r == seed_of(input@),
{
    if input.len() == 0 {
        return 0;
    }
    let mut acc: u64 = 0;
    let mut over = false;
    let mut i: usize = 0;
    while i < input.len()
        invariant
            i <= input@.len(),
            all_digits(input@.take(i as int)),
            !over ==> acc == dec_value(input@.take(i as int)) && acc <= u32::MAX,
            over ==> dec_value(input@.take(i as int)) > u32::MAX,
        decreases input@.len() - i,
    {
        let b = input[i];
        if b < 0x30 || b > 0x39 {
            proof {
                assert(!is_digit(input@[i as int]));
                assert(!all_digits(input@));
                assert(seed_of(input@) == 0);
            }
            return 0;
        }
        proof {
            assert(input@.take(i as int + 1).take(i as int) =~= input@.take(i as int));
            assert(input@.take(i as int + 1).last() == input@[i as int]);
            assert(dec_value(input@.take(i as int + 1)) == dec_value(input@.take(i as int)) * 10 + (
            input@[i as int] - 0x30));
        }
        if over {
            proof {
                assert(dec_value(input@.take(i as int + 1)) > u32::MAX);
            }
        } else {
            acc = acc * 10 + ((b - 0x30) as u64);
            if acc > 0xffff_ffff {
                over = true;
            }
        }
        i = i + 1;
    }
    proof {
        assert(input@.take(input@.len() as int) =~= input@);
    }
    if over {
        0
    } else {
        acc as u32
    }
}

/// Writes a number the way the input box shows it.
pub fn u32_to_dec(n: u32) -> (r: Vec<u8>)
    ensures
        r@ == dec_repr(n as int),
{
    let mut digits: Vec<u8> = Vec::new();
    let mut m: u32 = n;
    digits.push((m % 10) as u8 + 0x30);
    m = m / 10;
    proof {
        if m == 0 {
            assert(digits@.reverse() =~= dec_repr(n as int));
        } else {
            assert(dec_repr(n as int) == dec_repr(m as int).push((0x30 + (n as int) % 10) as u8));
            assert(dec_repr(m as int) + digits@.reverse() =~= dec_repr(n as int));
        }
    }
    while m > 0
        invariant
            m > 0 ==> dec_repr(n as int) == dec_repr(m as int) + digits@.reverse(),
            m == 0 ==> dec_repr(n as int) == digits@.reverse(),
        decreases m,
    {
        let ghost pre = digits@;
        let ghost m0 = m;
        digits.push((m % 10) as u8 + 0x30);
        m = m / 10;
        proof {
            assert(digits@.reverse() =~= seq![(0x30 + (m0 as int) % 10) as u8] + pre.reverse());
            if m == 0 {
                assert(dec_repr(m0 as int) == seq![(0x30 + (m0 as int) % 10) as u8]);
                assert(dec_repr(m0 as int) + pre.reverse() =~= digits@.reverse());
            } else {
                assert(dec_repr(m0 as int) == dec_repr(m as int).push(
                    (0x30 + (m0 as int) % 10) as u8,
                ));
                assert(dec_repr(m as int) + digits@.reverse() =~= (dec_repr(m as int).push(
                    (0x30 + (m0 as int) % 10) as u8,
                )) + pre.reverse());
            }
        }
    }
    let mut out: Vec<u8> = Vec::new();
    let mut i: usize = digits.len();
    while i > 0
        invariant
            i <= digits@.len(),
            out@.len() == digits@.len() - i,
            forall|k: int|
                0 <= k < out@.len() ==> out@[k] == digits@[digits@.len() - 1 - k],
        decreases i,
    {
        i = i - 1;
        out.push(digits[i]);
    }
    proof {
        assert(out@ =~= digits@.reverse());
    }
    out
}

/// The home screen's state: the confirmed seed, whether the input box is
/// being edited, and the text it holds.
pub struct Home {
    pub seed: u32,
    pub editing: bool,
    pub input: Vec<u8>,
}

impl Home {
    pub fn new() -> (r: Self)
        ensures
            r.seed == 0,
            !r.editing,
            r.input@ == seq![0x30u8],
    {
        let mut input: Vec<u8> = Vec::new();
        input.push(0x30);
        proof {
            assert(input@ =~= seq![0x30u8]);
        }
        Home { seed: 0, editing: false, input }
    }

    /// Whether the home screen would let a session start: not while the
    /// seed is being edited.
    pub fn ready(&self) -> (r: bool)
        ensures
            r == !self.editing,
    {
        !self.editing
    }

    pub fn seed(&self) -> (r: u32)
        ensures
            r == self.seed,
    {
        self.seed
    }

    /// Opens the input box for editing.
    pub fn begin_edit(&mut self)
        ensures
            final(self).editing,
            final(self).seed == old(self).seed,
            final(self).input == old(self).input,
    {
        self.editing = true;
    }

    /// Appends typed text to the input box, but only while editing and only
    /// when every typed byte is a digit.
    pub fn push_text(&mut self, text: &Vec<u8>)
        ensures
            final(self).seed == old(self).seed,
            final(self).editing == old(self).editing,
            old(self).editing && all_digits(text@) ==> final(self).input@ == old(self).input@
                + text@,
            !(old(self).editing && all_digits(text@)) ==> final(self).input == old(self).input,
    {
        if !self.editing {
            return ;
        }
        let mut i: usize = 0;
        while i < text.len()
            invariant
                i <= text@.len(),
                all_digits(text@.take(i as int)),
            decreases text@.len() - i,
        {
            let b = text[i];
            if b < 0x30 || b > 0x39 {
                proof {
                    assert(!is_digit(text@[i as int]));
                }
                return ;
            }
            proof {
                assert(text@.take(i as int + 1).take(i as int) =~= text@.take(i as int));
                assert forall|k: int| 0 <= k < i + 1 implies is_digit(
                    #[trigger] text@.take(i as int + 1)[k],
                ) by {
                    if k < i {
                        assert(text@.take(i as int + 1)[k] == text@.take(i as int)[k]);
                    }
                }
            }
            i = i + 1;
        }
        proof {
            assert(text@.take(text@.len() as int) =~= text@);
        }
        crate::interface::append_bytes(&mut self.input, text);
    }

    /// Removes the last byte of the input box, if any.
    pub fn backspace(&mut self)
        ensures
            final(self).seed == old(self).seed,
            final(self).editing == old(self).editing,
            old(self).input@.len() > 0 ==> final(self).input@ == old(self).input@.take(
                old(self).input@.len() - 1,
            ),
            old(self).input@.len() == 0 ==> final(self).input@ == old(self).input@,
    {
        let _ = self.input.pop();
        proof {
            if old(self).input@.len() > 0 {
                assert(self.input@ =~= old(self).input@.take(old(self).input@.len() - 1));
            }
        }
    }

    /// Closes the input box: the seed becomes the input's value and the box
    /// shows that seed back in canonical form.
    pub fn confirm(&mut self)
        ensures
            !final(self).editing,
            final(self).seed == seed_of(old(self).input@),
            final(self).input@ == dec_repr(seed_of(old(self).input@) as int),
    {
        self.editing = false;
        self.seed = parse_seed(&self.input);
        self.input = u32_to_dec(self.seed);
    }
}

} // verus!
