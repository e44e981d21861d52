//! The history pointer: the decimal text stored in the repository's `HEAD`
//! file, holding the id of the newest snapshot (0 before the first one).
use vstd::prelude::*;
use crate::text::{chars_of, string_from_chars};

verus! {

/// The largest value the pointer can hold.
pub const MAX_SNAPSHOT_ID: u32 = 4294967295;

/// Why the next snapshot id could not be had.
#[derive(Debug, PartialEq, Eq, Structural, Clone, Copy)]
pub enum HistoryError {
    /// The first line of `HEAD` is not an unsigned decimal number that fits in 32 bits.
    Unparsable,
    /// The pointer already holds the largest id there is.
    Exhausted,
}

pub open spec fn is_digit(c: char) -> bool {
    '0' <= c && c <= '9'
}

pub open spec fn digit_value(c: char) -> nat {
    ((c as u32) - ('0' as u32)) as nat
}

/// The character of a digit below ten.
pub open spec fn digit_char(d: nat) -> char {
    if d == 0 { '0' }
    else if d == 1 { '1' }
    else if d == 2 { '2' }
    else if d == 3 { '3' }
    else if d == 4 { '4' }
    else if d == 5 { '5' }
    else if d == 6 { '6' }
    else if d == 7 { '7' }
    else if d == 8 { '8' }
    else { '9' }
}

pub open spec fn all_digits(s: Seq<char>) -> bool {
    forall|i: int| 0 <= i < s.len() ==> is_digit(#[trigger] s[i])
}

/// The number that a string of digits writes in base ten.
pub open spec fn digits_value(s: Seq<char>) -> nat
    decreases s.len(),
{
    if s.len() == 0 {
        0
    } else {
        digits_value(s.drop_last()) * 10 + digit_value(s.last())
    }
}

/// The shortest base-ten writing of `n`.
pub open spec fn decimal_of(n: nat) -> Seq<char>
    decreases n,
{
    if n < 10 {
        seq![digit_char(n)]
    } else {
        decimal_of(n / 10).push(digit_char(n % 10))
    }
}

/// The characters before the first line break.
pub open spec fn first_line(s: Seq<char>) -> Seq<char>
    decreases s.len(),
{
    if s.len() == 0 {
        s
    } else if s[0] == '\n' {
        Seq::empty()
    } else {
        seq![s[0]] + first_line(s.drop_first())
    }
}

/// The digits of an unsigned number, after an optional leading `+`.
pub open spec fn unsigned_digits(t: Seq<char>) -> Seq<char> {
    if t.len() > 0 && t[0] == '+' {
        t.drop_first()
    } else {
        t
    }
}

/// `t` read as an unsigned 32-bit decimal number, if it is one.
pub open spec fn parse_u32(t: Seq<char>) -> Option<u32> {
    let d = unsigned_digits(t);
    if d.len() > 0 && all_digits(d) && digits_value(d) <= MAX_SNAPSHOT_ID {
        Some(digits_value(d) as u32)
    } else {
        None
    }
}

/// The pointer that `HEAD` holds: its first line read as a number.
pub open spec fn head_value(content: Seq<char>) -> Option<u32> {
    parse_u32(first_line(content))
}

/// The id that the next snapshot of a repository with this `HEAD` gets.
pub open spec fn next_id(content: Seq<char>) -> Result<u32, HistoryError> {
    match head_value(content) {
        None => Err(HistoryError::Unparsable),
        Some(n) => if n < MAX_SNAPSHOT_ID {
            Ok((n + 1) as u32)
        } else {
            Err(HistoryError::Exhausted)
        },
    }
}

proof fn lemma_first_line_at(s: Seq<char>, k: int)
    requires
        0 <= k <= s.len(),
        k == s.len() || s[k] == '\n',
        forall|j: int| 0 <= j < k ==> s[j] != '\n',
    ensures
        first_line(s) == s.subrange(0, k),
    decreases s.len(),
{
    if s.len() == 0 {
        assert(s.subrange(0, k) =~= s);
    } else if k == 0 {
        assert(s.subrange(0, k) =~= Seq::<char>::empty());
    } else {
        let t = s.drop_first();
        assert forall|j: int| 0 <= j < k - 1 implies t[j] != '\n' by {
            assert(t[j] == s[j + 1]);
        }
        lemma_first_line_at(t, k - 1);
        assert(s.subrange(0, k) =~= seq![s[0]] + t.subrange(0, k - 1));
    }
}

proof fn lemma_prefix_value_le(s: Seq<char>, i: int)
    requires
        0 <= i <= s.len(),
    ensures
        digits_value(s.subrange(0, i)) <= digits_value(s),
    decreases s.len(),
{
    if i < s.len() {
        let t = s.drop_last();
        lemma_prefix_value_le(t, i);
        assert(t.subrange(0, i) =~= s.subrange(0, i));
    } else {
        assert(s.subrange(0, i) =~= s);
    }
}

proof fn lemma_decimal_digits(n: nat)
    ensures
        decimal_of(n).len() > 0,
        all_digits(decimal_of(n)),
        digits_value(decimal_of(n)) == n,
        decimal_of(n)[0] != '+',
        forall|i: int| 0 <= i < decimal_of(n).len() ==> #[trigger] decimal_of(n)[i] != '\n',
    decreases n,
{
    if n < 10 {
        assert(digits_value(decimal_of(n).drop_last()) == 0) by {
            assert(decimal_of(n).drop_last().len() == 0);
        }
    } else {
        lemma_decimal_digits(n / 10);
        let s = decimal_of(n);
        assert(s.drop_last() =~= decimal_of(n / 10));
        assert(s[0] == decimal_of(n / 10)[0]);
    }
}

/// Writing the pointer in decimal and reading it back gives the same value.
pub proof fn lemma_head_round_trip(n: u32)
    ensures
        head_value(decimal_of(n as nat)) == Some(n),
{
    lemma_decimal_digits(n as nat);
    let s = decimal_of(n as nat);
    lemma_first_line_at(s, s.len() as int);
    assert(s.subrange(0, s.len() as int) =~= s);
}

/// A freshly initialised repository, whose `HEAD` holds `0`, has pointer 0.
pub proof fn lemma_initial_pointer_is_zero()
    ensures
        head_value(decimal_of(0)) == Some(0u32),
{
    lemma_head_round_trip(0);
}

/// What `HEAD` holds after `k` saves, starting from a fresh repository: each
/// save writes back the id it was given.
pub open spec fn head_after_saves(k: nat) -> Seq<char>
    decreases k,
{
    if k == 0 {
        decimal_of(0)
    } else {
        match next_id(head_after_saves((k - 1) as nat)) {
            Ok(id) => decimal_of(id as nat),
            Err(_) => head_after_saves((k - 1) as nat),
        }
    }
}

/// After `k` successful saves on a fresh repository, the pointer is `k`, and
/// the `k`-th save was handed the id `k`: ids run 1, 2, ... without gaps.
pub proof fn lemma_saves_count_up(k: nat)
    requires
        k <= MAX_SNAPSHOT_ID,
    ensures
        head_value(head_after_saves(k)) == Some(k as u32),
        k > 0 ==> next_id(head_after_saves((k - 1) as nat)) == Ok::<u32, HistoryError>(k as u32),
    decreases k,
{
    if k == 0 {
        lemma_initial_pointer_is_zero();
    } else {
        lemma_saves_count_up((k - 1) as nat);
        lemma_head_round_trip(k as u32);
    }
}

fn digit_to_char(d: u32) -> (c: char)
    requires
        d < 10,
    ensures
        c == digit_char(d as nat),
{
    if d == 0 { '0' }
    else if d == 1 { '1' }
    else if d == 2 { '2' }
    else if d == 3 { '3' }
    else if d == 4 { '4' }
    else if d == 5 { '5' }
    else if d == 6 { '6' }
    else if d == 7 { '7' }
    else if d == 8 { '8' }
    else { '9' }
}

fn push_decimal(n: u32, out: &mut Vec<char>)
    ensures
        final(out)@ == old(out)@ + decimal_of(n as nat),
    decreases n,
{
    if n >= 10 {
        push_decimal(n / 10, out);
    }
    out.push(digit_to_char(n % 10));
    assert(out@ =~= old(out)@ + decimal_of(n as nat));
}

/// The decimal text of `n`, as stored in `HEAD` and in snapshot file names.
pub fn render_id(n: u32) -> (r: String)
    ensures
        r@ == decimal_of(n as nat),
{
    let mut out: Vec<char> = Vec::new();
    push_decimal(n, &mut out);
    assert(out@ =~= decimal_of(n as nat));
    string_from_chars(&out)
}

/// Reads the pointer out of the text of `HEAD`: its first line, as an unsigned
/// 32-bit decimal number with an optional leading `+`.
pub fn parse_head(content: &str) -> (r: Option<u32>)
    ensures
        r == head_value(content@),
{
    let s = chars_of(content);
    let mut end: usize = 0;
    while end < s.len() && s[end] != '\n'
        invariant
            end <= s@.len(),
            forall|j: int| 0 <= j < end ==> s@[j] != '\n',
        decreases s@.len() - end,
    {
        end = end + 1;
    }
    proof {
        lemma_first_line_at(s@, end as int);
    }
    let ghost line = s@.subrange(0, end as int);
    let start: usize = if end > 0 && s[0] == '+' { 1 } else { 0 };
    let ghost d = s@.subrange(start as int, end as int);
    assert(d =~= unsigned_digits(line));
    if start == end {
        return None;
    }
    let mut acc: u32 = 0;
    let mut i: usize = start;
    while i < end
        invariant
            start <= i <= end <= s@.len(),
            d == s@.subrange(start as int, end as int),
            s@ == content@,
            d == unsigned_digits(first_line(content@)),
            d.len() > 0,
            all_digits(s@.subrange(start as int, i as int)),
            acc as nat == digits_value(s@.subrange(start as int, i as int)),
        decreases end - i,
    {
        let c = s[i];
        let ghost pre = s@.subrange(start as int, i as int);
        let ghost next = s@.subrange(start as int, i + 1);
        assert(next.drop_last() =~= pre);
        if !('0' <= c && c <= '9') {
            assert(d[i - start] == c);
            assert(!all_digits(d));
            return None;
        }
        let dv: u32 = (c as u32) - ('0' as u32);
        if acc > (MAX_SNAPSHOT_ID - dv) / 10 {
            proof {
                assert(digits_value(next) > MAX_SNAPSHOT_ID) by (nonlinear_arith)
                    requires
                        digits_value(next) == acc * 10 + dv,
                        acc > (MAX_SNAPSHOT_ID - dv) / 10,
                        dv <= 9,
                ;
                assert(next =~= d.subrange(0, i + 1 - start));
                assert(d.subrange(0, (i + 1 - start) as int) == next);
                lemma_prefix_value_le(d, i + 1 - start);
            }
            return None;
        }
        proof {
            assert(acc * 10 + dv <= MAX_SNAPSHOT_ID) by (nonlinear_arith)
                requires
                    acc <= (MAX_SNAPSHOT_ID - dv) / 10,
                    dv <= 9,
            ;
        }
        acc = acc * 10 + dv;
        assert(all_digits(next));
        i = i + 1;
    }
    assert(s@.subrange(start as int, i as int) == d);
    Some(acc)
}

/// The id for the next snapshot, read from the text of `HEAD`: the stored
/// pointer plus one.
pub fn next_snapshot_id(head: &str) -> (r: Result<u32, HistoryError>)
    ensures
        r == next_id(head@),
{
    match parse_head(head) {
        None => Err(HistoryError::Unparsable),
        Some(n) => if n < MAX_SNAPSHOT_ID {
            Ok(n + 1)
        } else {
            Err(HistoryError::Exhausted)
        },
    }
}

} // verus!
