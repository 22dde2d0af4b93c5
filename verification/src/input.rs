//! Interpretation of one line of user input.
//!
//! The surrounding process prompts and reads the raw line; the library
//! trims it and decides what it asks for: quitting, selecting a menu
//! entry by its 1-based number, or nothing valid, in which case the
//! caller re-prompts.

use vstd::prelude::*;
use vstd::string::StrSliceExecFns;

verus! {

/// The whitespace the input reader strips from both ends of a line:
/// blank, tab, carriage return, newline.
pub open spec fn is_space(c: char) -> bool {
    c == ' ' || c == '\t' || c == '\r' || c == '\n'
}

/// `s` without its leading whitespace.
pub open spec fn trim_front(s: Seq<char>) -> Seq<char>
    decreases s.len(),
{
    if s.len() == 0 {
        s
    } else if is_space(s.first()) {
        trim_front(s.drop_first())
    } else {
        s
    }
}

/// `s` without its trailing whitespace.
pub open spec fn trim_back(s: Seq<char>) -> Seq<char>
    decreases s.len(),
{
    if s.len() == 0 {
        s
    } else if is_space(s.last()) {
        trim_back(s.drop_last())
    } else {
        s
    }
}

/// `s` without leading and trailing whitespace.
pub open spec fn trim_spec(s: Seq<char>) -> Seq<char> {
    trim_back(trim_front(s))
}

proof fn lemma_trim_front_is_skip(s: Seq<char>, b: int)
    requires
        0 <= b <= s.len(),
        forall|k: int| 0 <= k < b ==> is_space(#[trigger] s[k]),
        b < s.len() ==> !is_space(s[b]),
    ensures
        trim_front(s) == s.skip(b),
    decreases s.len(),
{
    if b == 0 {
        assert(s.skip(0) =~= s);
    } else {
        lemma_trim_front_is_skip(s.drop_first(), b - 1);
        assert(s.drop_first().skip(b - 1) =~= s.skip(b));
    }
}

proof fn lemma_trim_back_is_take(s: Seq<char>, e: int)
    requires
        0 <= e <= s.len(),
        forall|k: int| e <= k < s.len() ==> is_space(#[trigger] s[k]),
        e > 0 ==> !is_space(s[e - 1]),
    ensures
        trim_back(s) == s.take(e),
    decreases s.len(),
{
    if e == s.len() {
        assert(s.take(e) =~= s);
    } else {
        lemma_trim_back_is_take(s.drop_last(), e);
        assert(s.drop_last().take(e) =~= s.take(e));
    }
}

/// Strips leading and trailing whitespace, exactly as `trim_spec` states.
pub fn trim(s: &str) -> (r: String)
    ensures
        r@ == trim_spec(s@),
{
    let n = s.unicode_len();
    let mut b: usize = 0;
    loop
        invariant
            b <= n,
            n == s@.len(),
            forall|k: int| 0 <= k < b ==> is_space(#[trigger] s@[k]),
        ensures
            b <= n,
            forall|k: int| 0 <= k < b ==> is_space(#[trigger] s@[k]),
            b < n ==> !is_space(s@[b as int]),
        decreases n - b,
    {
        if b == n {
            break ;
        }
        let c = s.get_char(b);
        if !(c == ' ' || c == '\t' || c == '\r' || c == '\n') {
            break ;
        }
        b = b + 1;
    }
    let mut e: usize = n;
    loop
        invariant
            b <= e <= n,
            n == s@.len(),
            forall|k: int| e <= k < n ==> is_space(#[trigger] s@[k]),
        ensures
            b <= e <= n,
            forall|k: int| e <= k < n ==> is_space(#[trigger] s@[k]),
            e > b ==> !is_space(s@[e - 1]),
        decreases e,
    {
        if e == b {
            break ;
        }
        let c = s.get_char(e - 1);
        if !(c == ' ' || c == '\t' || c == '\r' || c == '\n') {
            break ;
        }
        e = e - 1;
    }
    proof {
        lemma_trim_front_is_skip(s@, b as int);
        lemma_trim_back_is_take(s@.skip(b as int), e - b);
    }
    let r = s.substring_char(b, e);
    assert(r@ =~= s@.skip(b as int).take(e - b));
    r.to_owned()
}

/// A decimal digit.
pub open spec fn is_digit(c: char) -> bool {
    '0' <= c && c <= '9'
}

/// The numeric value of a decimal digit character.
pub open spec fn digit_val(c: char) -> nat
    recommends
        is_digit(c),
{
    ((c as int) - ('0' as int)) as nat
}

/// Every character of `s` is a decimal digit.
pub open spec fn all_digits(s: Seq<char>) -> bool {
    forall|i: int| 0 <= i < s.len() ==> is_digit(#[trigger] s[i])
}

/// The number a digit string denotes, most significant digit first.
pub open spec fn dec_val(s: Seq<char>) -> nat
    decreases s.len(),
{
    if s.len() == 0 {
        0
    } else {
        dec_val(s.drop_last()) * 10 + digit_val(s.last())
    }
}

/// A longer digit prefix never denotes a smaller number.
proof fn lemma_dec_val_prefix(s: Seq<char>, i: int)
    requires
        0 <= i <= s.len(),
    ensures
        dec_val(s.take(i)) <= dec_val(s),
    decreases s.len(),
{
    if i == s.len() {
        assert(s.take(i) =~= s);
    } else {
        assert(s.drop_last().take(i) =~= s.take(i));
        lemma_dec_val_prefix(s.drop_last(), i);
    }
}

/// Parses a non-empty, all-digit string as a number; rejects anything
/// else, and rejects a value that does not fit the machine's word.
pub fn parse_usize(s: &str) -> (r: Option<usize>)
    ensures
        match r {
            Some(v) => s@.len() > 0 && all_digits(s@) && v == dec_val(s@),
            None => s@.len() == 0 || !all_digits(s@) || dec_val(s@) > usize::MAX,
        },
{
    let n = s.unicode_len();
    if n == 0 {
        return None;
    }
    let mut acc: usize = 0;
    let mut i: usize = 0;
    proof {
        assert(s@.take(0) =~= Seq::<char>::empty());
    }
    while i < n
        invariant
            i <= n,
            n == s@.len(),
            forall|k: int| 0 <= k < i ==> is_digit(#[trigger] s@[k]),
            acc == dec_val(s@.take(i as int)),
        decreases n - i,
    {
        let c = s.get_char(i);
        if c < '0' || c > '9' {
            assert(!is_digit(s@[i as int]));
            return None;
        }
        let d: usize = ((c as u32) - ('0' as u32)) as usize;
        assert(d == digit_val(s@[i as int]));
        assert(d < 10);
        let q = usize::MAX / 10;
        let rm = usize::MAX % 10;
        if acc > q || (acc == q && d > rm) {
            proof {
                assert(usize::MAX as int == 10 * (q as int) + (rm as int));
                assert((acc as int) * 10 + d as int > usize::MAX as int);
                assert(s@.take(i as int + 1).drop_last() =~= s@.take(i as int));
                assert(dec_val(s@.take(i as int + 1)) > usize::MAX);
                lemma_dec_val_prefix(s@, i as int + 1);
            }
            return None;
        }
        proof {
            assert(usize::MAX as int == 10 * (q as int) + (rm as int));
            assert((acc as int) * 10 + (d as int) <= usize::MAX as int);
        }
        acc = acc * 10 + d;
        proof {
            assert(s@.take(i as int + 1).drop_last() =~= s@.take(i as int));
        }
        i = i + 1;
    }
    proof {
        assert(s@.take(n as int) =~= s@);
    }
    Some(acc)
}

/// What one trimmed line of input asks the control loop to do.
#[derive(Clone, Copy, PartialEq, Eq, Structural, Debug)]
pub enum Choice {
    /// The quit sentinel: leave the loop without selecting.
    Quit,
    /// A valid 1-based selection of a menu entry.
    Select(usize),
    /// Anything else: report an invalid option and re-prompt.
    Invalid,
}

/// The quit sentinel, `":quit"`.
pub open spec fn quit_word() -> Seq<char> {
    seq![':', 'q', 'u', 'i', 't']
}

/// The decision on one trimmed input line against `n` menu entries: the
/// sentinel quits; a digit string denoting a number in `1..=n` selects
/// that entry; everything else (empty, non-numeric, zero, out of range)
/// is invalid.
pub open spec fn choice_of(s: Seq<char>, n: nat) -> Choice {
    if s == quit_word() {
        Choice::Quit
    } else if s.len() > 0 && all_digits(s) && 1 <= dec_val(s) && dec_val(s) <= n {
        Choice::Select(dec_val(s) as usize)
    } else {
        Choice::Invalid
    }
}

/// Character-for-character equality of two string slices.
fn str_eq(a: &str, b: &str) -> (r: bool)
    ensures
        r == (a@ == b@),
{
    let alen = a.unicode_len();
    let blen = b.unicode_len();
    if alen != blen {
        return false;
    }
    let mut i: usize = 0;
    while i < alen
        invariant
            i <= alen,
            alen == a@.len(),
            alen == b@.len(),
            forall|k: int| 0 <= k < i ==> a@[k] == b@[k],
        decreases alen - i,
    {
        if a.get_char(i) != b.get_char(i) {
            return false;
        }
        i = i + 1;
    }
    proof {
        assert(a@ =~= b@);
    }
    true
}

/// The quit sentinel always quits: whatever the number of menu entries,
/// it never selects an entry and never counts as invalid.
pub proof fn lemma_quit_quits(n: nat)
    ensures
        choice_of(quit_word(), n) == Choice::Quit,
{
}

/// An entry is selected exactly for a digit string that names one: the
/// decision is a selection if and only if the line is not the sentinel
/// and is a non-empty digit string denoting a number between 1 and the
/// entry count, and the selected number is that value. An empty,
/// non-numeric, zero or out-of-range line is invalid, so it selects
/// nothing and the loop re-prompts.
pub proof fn lemma_select_iff_valid(s: Seq<char>, n: nat)
    requires
        n <= usize::MAX,
    ensures
        (choice_of(s, n) is Select) <==> (s != quit_word() && s.len() > 0 && all_digits(s) && 1
            <= dec_val(s) && dec_val(s) <= n),
        choice_of(s, n) is Select ==> choice_of(s, n)->Select_0 == dec_val(s),
{
}

/// Decides one line of input against a menu of `n` entries, exactly as
/// `choice_of` states it.
pub fn interpret_input(input: &str, n: usize) -> (c: Choice)
    ensures
        c == choice_of(input@, n as nat),
{
    proof {
        reveal_strlit(":quit");
        assert(":quit"@ =~= quit_word());
    }
    if str_eq(input, ":quit") {
        return Choice::Quit;
    }
    match parse_usize(input) {
        Some(v) => {
            if 1 <= v && v <= n {
                Choice::Select(v)
            } else {
                Choice::Invalid
            }
        },
        None => Choice::Invalid,
    }
}

} // verus!
