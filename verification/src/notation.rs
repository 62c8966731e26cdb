//! The dice-notation grammar `[count]d<sides>[(+|-)modifier]` and its parser.
//!
//! The grammar is modelled over `Seq<char>`: a maximal run of leading digits
//! (possibly empty) forms the count, then a literal `d`, then a non-empty run
//! of digits forms the side count, then optionally a sign and a non-empty run
//! of digits forms the modifier. `parse_spec` says exactly which request or
//! error every input maps to, and `parse` is proved to return it.

use vstd::prelude::*;

verus! {

/// A parsed dice-notation request: roll `count` dice with `sides` sides each,
/// then add `modifier` to the sum of the rolls.
#[derive(Clone, Copy, Debug, PartialEq, Eq, Structural)]
pub struct RollRequest {
    pub count: u32,
    pub sides: u32,
    pub modifier: i32,
}

impl RollRequest {
    /// A request is well formed when the die count and the side count are
    /// positive and every field lies in the range that parsing can produce.
    pub open spec fn wf(self) -> bool {
        &&& 1 <= self.count <= i32::MAX
        &&& 1 <= self.sides <= i32::MAX
        &&& -i32::MAX <= self.modifier <= i32::MAX
    }
}

/// The ways an input can be rejected: it does not match the grammar, the die
/// count is not a positive machine integer, or the side count is not.
#[derive(Clone, Copy, Debug, PartialEq, Eq, Structural)]
pub enum RollError {
    Format,
    Count,
    Sides,
}

/// Whether `c` is a decimal digit.
pub open spec fn is_dig(c: char) -> bool {
    '0' as u32 <= c as u32 && c as u32 <= '9' as u32
}

/// The numeric value of a digit character.
pub open spec fn dig_val(c: char) -> int {
    c as u32 - '0' as u32
}

/// The value of a digit string read in base ten.
pub open spec fn digits_val(s: Seq<char>) -> int
    decreases s.len(),
{
    if s.len() == 0 {
        0
    } else {
        digits_val(s.drop_last()) * 10 + dig_val(s.last())
    }
}

/// The length of the maximal run of digits at the front of `s`.
pub open spec fn digit_run(s: Seq<char>) -> int
    decreases s.len(),
{
    if s.len() == 0 || !is_dig(s[0]) {
        0
    } else {
        1 + digit_run(s.drop_first())
    }
}

/// The digit run is a prefix of digits, and it is maximal.
pub proof fn lemma_digit_run_bounds(s: Seq<char>)
    ensures
        0 <= digit_run(s) <= s.len(),
        forall|k: int| 0 <= k < digit_run(s) ==> is_dig(#[trigger] s[k]),
        digit_run(s) < s.len() ==> !is_dig(s[digit_run(s)]),
    decreases s.len(),
{
    if s.len() == 0 || !is_dig(s[0]) {
    } else {
        lemma_digit_run_bounds(s.drop_first());
        assert forall|k: int| 0 <= k < digit_run(s) implies is_dig(#[trigger] s[k]) by {
            if k > 0 {
                assert(s.drop_first()[k - 1] == s[k]);
            }
        }
        if digit_run(s) < s.len() {
            assert(s.drop_first()[digit_run(s) - 1] == s[digit_run(s)]);
        }
    }
}

/// A prefix of digits bounded by a non-digit (or the end) is the digit run.
pub proof fn lemma_digit_run_exact(s: Seq<char>, i: int)
    requires
        0 <= i <= s.len(),
        forall|k: int| 0 <= k < i ==> is_dig(#[trigger] s[k]),
        i < s.len() ==> !is_dig(s[i]),
    ensures
        digit_run(s) == i,
    decreases s.len(),
{
    if i == 0 {
    } else {
        assert(is_dig(s[0]));
        assert forall|k: int| 0 <= k < i - 1 implies is_dig(#[trigger] s.drop_first()[k]) by {
            assert(s.drop_first()[k] == s[k + 1]);
        }
        if i - 1 < s.drop_first().len() {
            assert(s.drop_first()[i - 1] == s[i]);
        }
        lemma_digit_run_exact(s.drop_first(), i - 1);
    }
}

/// Everything after the `d` that ends the count field.
pub open spec fn after_d(s: Seq<char>) -> Seq<char>
    recommends
        digit_run(s) < s.len(),
{
    s.subrange(digit_run(s) + 1, s.len() as int)
}

/// The (possibly empty) digit string of the count field.
pub open spec fn count_part(s: Seq<char>) -> Seq<char> {
    s.subrange(0, digit_run(s))
}

/// The digit string of the side-count field.
pub open spec fn sides_part(s: Seq<char>) -> Seq<char> {
    after_d(s).subrange(0, digit_run(after_d(s)))
}

/// Whether the notation carries an explicit sign-and-modifier suffix.
pub open spec fn has_modifier(s: Seq<char>) -> bool {
    digit_run(after_d(s)) < after_d(s).len()
}

/// Whether the written modifier sign is `-`.
pub open spec fn modifier_negative(s: Seq<char>) -> bool {
    has_modifier(s) && after_d(s)[digit_run(after_d(s))] == '-'
}

/// The digit string of the modifier field.
pub open spec fn modifier_part(s: Seq<char>) -> Seq<char> {
    after_d(s).subrange(digit_run(after_d(s)) + 1, after_d(s).len() as int)
}

/// The part after the `d`: a non-empty digit run, either to the end or
/// followed by a sign and a non-empty digit run to the end.
pub open spec fn tail_ok(rest: Seq<char>) -> bool {
    let j = digit_run(rest);
    &&& 1 <= j
    &&& (j == rest.len() || {
        &&& (rest[j] == '+' || rest[j] == '-')
        &&& j + 1 < rest.len()
        &&& digit_run(rest.subrange(j + 1, rest.len() as int)) == rest.len() - j - 1
    })
}

/// Whether `s` matches the dice-notation grammar.
pub open spec fn grammar_ok(s: Seq<char>) -> bool {
    let i = digit_run(s);
    &&& i < s.len()
    &&& s[i] == 'd'
    &&& tail_ok(after_d(s))
}

/// The die count the notation denotes: an omitted count field means one die.
pub open spec fn count_value(s: Seq<char>) -> int {
    if count_part(s).len() == 0 {
        1
    } else {
        digits_val(count_part(s))
    }
}

/// The modifier the notation denotes. A magnitude beyond the machine range
/// reads as zero; otherwise the written sign is applied to the magnitude.
pub open spec fn modifier_value(s: Seq<char>) -> int {
    if !has_modifier(s) {
        0
    } else {
        let m = digits_val(modifier_part(s));
        if m > i32::MAX {
            0
        } else if modifier_negative(s) {
            -m
        } else {
            m
        }
    }
}

/// A digit string never has a negative value.
pub proof fn lemma_digits_val_nonneg(s: Seq<char>)
    requires
        forall|k: int| 0 <= k < s.len() ==> is_dig(#[trigger] s[k]),
    ensures
        digits_val(s) >= 0,
    decreases s.len(),
{
    if s.len() > 0 {
        assert forall|k: int| 0 <= k < s.drop_last().len() implies is_dig(
            #[trigger] s.drop_last()[k],
        ) by {
            assert(s.drop_last()[k] == s[k]);
        }
        lemma_digits_val_nonneg(s.drop_last());
        assert(s.last() == s[s.len() - 1]);
        assert(is_dig(s[s.len() - 1]));
    }
}

/// Appending further digits can only grow the value of a digit string.
pub proof fn lemma_digits_val_grows(s: Seq<char>, from: int, mid: int, to: int)
    requires
        0 <= from <= mid <= to <= s.len(),
        forall|k: int| from <= k < to ==> is_dig(#[trigger] s[k]),
    ensures
        digits_val(s.subrange(from, to)) >= digits_val(s.subrange(from, mid)),
    decreases to - mid,
{
    if mid < to {
        let shorter = s.subrange(from, mid);
        let longer = s.subrange(from, mid + 1);
        assert(longer.drop_last() =~= shorter);
        assert(longer.last() == s[mid]);
        assert forall|k: int| 0 <= k < shorter.len() implies is_dig(#[trigger] shorter[k]) by {
            assert(shorter[k] == s[from + k]);
        }
        lemma_digits_val_nonneg(shorter);
        assert(is_dig(s[mid]));
        assert(digits_val(longer) == digits_val(shorter) * 10 + dig_val(s[mid]));
        assert(digits_val(longer) >= digits_val(shorter));
        lemma_digits_val_grows(s, from, mid + 1, to);
    }
}

/// What parsing returns for every input: the grammar is checked first, then
/// the count must be a positive machine integer, then the side count must be.
pub open spec fn parse_spec(s: Seq<char>) -> Result<RollRequest, RollError> {
    if !grammar_ok(s) {
        Err(RollError::Format)
    } else if !(1 <= count_value(s) <= i32::MAX) {
        Err(RollError::Count)
    } else if !(1 <= digits_val(sides_part(s)) <= i32::MAX) {
        Err(RollError::Sides)
    } else {
        Ok(
            RollRequest {
                count: count_value(s) as u32,
                sides: digits_val(sides_part(s)) as u32,
                modifier: modifier_value(s) as i32,
            },
        )
    }
}

/// An omitted count field defaults to one die: any notation that starts at
/// its `d` parses exactly as the same notation with `1` written in front.
pub proof fn lemma_count_defaults_to_one(s: Seq<char>)
    requires
        s.len() >= 1,
        s[0] == 'd',
    ensures
        parse_spec(seq!['1'] + s) == parse_spec(s),
{
    let t = seq!['1'] + s;
    assert(!is_dig('d'));
    assert(digit_run(s) == 0);
    assert(t.drop_first() =~= s);
    assert(digit_run(t) == 1);
    assert(after_d(t) =~= after_d(s));
    assert(count_part(s).len() == 0);
    assert(count_part(t) =~= seq!['1']);
    assert(seq!['1'].drop_last() =~= Seq::<char>::empty());
    assert(digits_val(Seq::<char>::empty()) == 0);
    assert(seq!['1'].last() == '1');
    assert(dig_val('1') == 1);
    assert(digits_val(seq!['1']) == 1);
    assert(digits_val(count_part(t)) == 1);
    assert(count_value(t) == 1 && count_value(s) == 1);
    assert(t[1] == 'd');
    assert(grammar_ok(t) == grammar_ok(s));
}

/// The modifier is bound to the sign written next to its digits: when the
/// digits fit the machine range, `+M` parses to modifier `M` and `-M` to
/// modifier `-M`. A sign character anywhere else in the input cannot flip it.
pub proof fn lemma_modifier_sign(s: Seq<char>)
    requires
        parse_spec(s) is Ok,
        has_modifier(s),
        digits_val(modifier_part(s)) <= i32::MAX,
    ensures
        !modifier_negative(s) ==> parse_spec(s)->Ok_0.modifier == digits_val(modifier_part(s)),
        modifier_negative(s) ==> parse_spec(s)->Ok_0.modifier == -digits_val(modifier_part(s)),
{
    let rest = after_d(s);
    let j = digit_run(rest);
    let tail = rest.subrange(j + 1, rest.len() as int);
    assert(grammar_ok(s));
    assert(digit_run(tail) == tail.len());
    lemma_digit_run_bounds(tail);
    assert(modifier_part(s) == tail);
    lemma_digits_val_nonneg(tail);
}

/// Whether `c` is a decimal digit, decided in executable code.
fn is_digit_char(c: char) -> (r: bool)
    ensures
        r == is_dig(c),
{
    let u = c as u32;
    48 <= u && u <= 57
}

/// Returns the end of the maximal digit run of `s` that starts at `from`.
fn scan_digits(s: &str, from: usize, n: usize) -> (r: usize)
    requires
        n == s@.len(),
        from <= n,
    ensures
        from <= r <= n,
        digit_run(s@.subrange(from as int, n as int)) == r - from,
{
    let mut k = from;
    loop
        invariant_except_break
            from <= k <= n,
            n == s@.len(),
            forall|t: int| from <= t < k ==> is_dig(#[trigger] s@[t]),
        ensures
            from <= k <= n,
            forall|t: int| from <= t < k ==> is_dig(#[trigger] s@[t]),
            k == n || !is_dig(s@[k as int]),
        decreases n - k,
    {
        if k >= n {
            break;
        }
        let c = s.get_char(k);
        if !is_digit_char(c) {
            break;
        }
        k = k + 1;
    }
    proof {
        let sub = s@.subrange(from as int, n as int);
        assert forall|t: int| 0 <= t < k - from implies is_dig(#[trigger] sub[t]) by {
            assert(sub[t] == s@[from + t]);
        }
        if (k as int) - (from as int) < sub.len() {
            assert(sub[k - from] == s@[k as int]);
        }
        lemma_digit_run_exact(sub, k - from);
    }
    k
}

/// Reads the digit string `s[from..to]` in base ten, or reports that its
/// value does not fit a positive machine integer.
fn parse_digits(s: &str, from: usize, to: usize) -> (r: Option<u32>)
    requires
        from <= to <= s@.len(),
        forall|k: int| from <= k < to ==> is_dig(#[trigger] s@[k]),
    ensures
        ({
            let v = digits_val(s@.subrange(from as int, to as int));
            match r {
                Some(u) => u == v && v <= i32::MAX,
                None => v > i32::MAX,
            }
        }),
{
    let mut acc: u64 = 0;
    let mut k = from;
    while k < to
        invariant
            from <= k <= to <= s@.len(),
            forall|t: int| from <= t < to ==> is_dig(#[trigger] s@[t]),
            acc == digits_val(s@.subrange(from as int, k as int)),
            acc <= i32::MAX as u64,
        decreases to - k,
    {
        let c = s.get_char(k);
        let d: u32 = (c as u32) - 48;
        proof {
            let shorter = s@.subrange(from as int, k as int);
            let longer = s@.subrange(from as int, (k + 1) as int);
            assert(longer.drop_last() =~= shorter);
            assert(longer.last() == s@[k as int]);
            assert(is_dig(s@[k as int]));
        }
        let next: u64 = acc * 10 + d as u64;
        if next > i32::MAX as u64 {
            proof {
                lemma_digits_val_grows(s@, from as int, (k + 1) as int, to as int);
            }
            return None;
        }
        acc = next;
        k = k + 1;
    }
    assert(s@.subrange(from as int, k as int) =~= s@.subrange(from as int, to as int));
    Some(acc as u32)
}

/// Parses dice notation, returning exactly what `parse_spec` maps it to.
pub fn parse(input: &str) -> (r: Result<RollRequest, RollError>)
    ensures
        r == parse_spec(input@),
        r matches Ok(req) ==> req.wf(),
{
    let ghost s = input@;
    let n = input.unicode_len();
    proof {
        assert(s.subrange(0, n as int) =~= s);
    }
    let i = scan_digits(input, 0, n);
    if i == n {
        return Err(RollError::Format);
    }
    let dc = input.get_char(i);
    if dc != 'd' {
        return Err(RollError::Format);
    }
    let ghost rest = after_d(s);
    proof {
        assert(s.subrange(i + 1, n as int) =~= rest);
    }
    let j = scan_digits(input, i + 1, n);
    if j == i + 1 {
        return Err(RollError::Format);
    }
    if j < n {
        let sc = input.get_char(j);
        proof {
            assert(rest[j - (i + 1)] == s[j as int]);
        }
        if !(sc == '+' || sc == '-') {
            return Err(RollError::Format);
        }
        if j + 1 == n {
            return Err(RollError::Format);
        }
        let ghost mod_tail = rest.subrange(j - (i + 1) + 1, rest.len() as int);
        proof {
            assert(s.subrange(j + 1, n as int) =~= mod_tail);
        }
        let k2 = scan_digits(input, j + 1, n);
        if k2 < n {
            return Err(RollError::Format);
        }
    }
    assert(grammar_ok(s));
    let count: u32;
    if i == 0 {
        proof {
            assert(count_part(s).len() == 0);
        }
        count = 1;
    } else {
        proof {
            assert(count_part(s) =~= s.subrange(0, i as int));
            lemma_digit_run_bounds(s);
        }
        match parse_digits(input, 0, i) {
            Some(v) => {
                if v == 0 {
                    return Err(RollError::Count);
                }
                count = v;
            },
            None => {
                return Err(RollError::Count);
            },
        }
    }
    proof {
        assert(sides_part(s) =~= s.subrange(i + 1, j as int));
        lemma_digit_run_bounds(rest);
        assert forall|t: int| i + 1 <= t < j implies is_dig(#[trigger] s[t]) by {
            assert(rest[t - (i + 1)] == s[t]);
        }
    }
    let sides: u32;
    match parse_digits(input, i + 1, j) {
        Some(v) => {
            if v == 0 {
                return Err(RollError::Sides);
            }
            sides = v;
        },
        None => {
            return Err(RollError::Sides);
        },
    }
    let mut modifier: i32 = 0;
    if j < n {
        let sc = input.get_char(j);
        proof {
            assert(rest[j - (i + 1)] == s[j as int]);
            assert(modifier_part(s) =~= s.subrange(j + 1, n as int));
            let mod_tail = rest.subrange(j - (i + 1) + 1, rest.len() as int);
            lemma_digit_run_bounds(mod_tail);
            assert forall|t: int| j + 1 <= t < n implies is_dig(#[trigger] s[t]) by {
                assert(mod_tail[t - (j + 1)] == s[t]);
            }
        }
        match parse_digits(input, j + 1, n) {
            Some(m) => {
                if sc == '-' {
                    modifier = -(m as i32);
                } else {
                    modifier = m as i32;
                }
            },
            None => {
                modifier = 0;
            },
        }
    }
    Ok(RollRequest { count, sides, modifier })
}

} // verus!
