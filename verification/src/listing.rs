//! The kernel's listing of the direct children of a process: where it is
//! found and how it is read.
//!
//! A listing is a run of bytes that holds decimal process numbers separated
//! by blanks, such as `b"812 4096 "`.

use crate::pid::Pid;
use vstd::prelude::*;
use vstd::slice::slice_subrange;
use vstd::string::is_ascii_spec_bytes;

verus! {

/// The space character.
pub const SPACE: u8 = 0x20;

/// The horizontal tab, the first of the blank control characters.
pub const TAB: u8 = 0x09;

/// The carriage return, the last of the blank control characters.
pub const CARRIAGE_RETURN: u8 = 0x0d;

/// The digit `0`.
pub const DIGIT_ZERO: u8 = 0x30;

/// The digit `9`.
pub const DIGIT_NINE: u8 = 0x39;

/// The plus sign.
pub const PLUS: u8 = 0x2b;

/// Whether `b` separates the numbers of a listing: the space and the control
/// characters from tab to carriage return.
pub open spec fn is_blank(b: u8) -> bool {
    b == SPACE || TAB <= b <= CARRIAGE_RETURN
}

/// Whether `b` is one of `0` to `9`.
pub open spec fn is_digit(b: u8) -> bool {
    DIGIT_ZERO <= b <= DIGIT_NINE
}

/// Length of the longest prefix of `s` that holds no blank.
pub open spec fn word_len(s: Seq<u8>) -> nat
    decreases s.len(),
{
    if s.len() == 0 || is_blank(s[0]) {
        0
    } else {
        1 + word_len(s.skip(1))
    }
}

/// The words of `s`: its maximal runs of bytes that are not blank, from left
/// to right.
pub open spec fn words(s: Seq<u8>) -> Seq<Seq<u8>>
    decreases s.len(),
{
    if s.len() == 0 {
        Seq::empty()
    } else if is_blank(s[0]) {
        words(s.skip(1))
    } else {
        proof {
            lemma_word_len_bounds(s);
        }
        let n = word_len(s) as int;
        seq![s.take(n)] + words(s.skip(n))
    }
}

/// A word is never longer than what it is a prefix of, and it is empty only
/// where the first byte is a blank or missing.
pub proof fn lemma_word_len_bounds(s: Seq<u8>)
    ensures
        word_len(s) <= s.len(),
        word_len(s) == 0 <==> (s.len() == 0 || is_blank(s[0])),
    decreases s.len(),
{
    if s.len() > 0 && !is_blank(s[0]) {
        lemma_word_len_bounds(s.skip(1));
    }
}

/// The number that the decimal digits `digits` write, most significant digit
/// first.
pub open spec fn decimal_value(digits: Seq<u8>) -> nat
    decreases digits.len(),
{
    if digits.len() == 0 {
        0
    } else {
        (10 * decimal_value(digits.drop_last()) + (digits.last() - DIGIT_ZERO)) as nat
    }
}

/// Whether every byte of `s` is a digit.
pub open spec fn all_digits(s: Seq<u8>) -> bool {
    forall|i: int| 0 <= i < s.len() ==> is_digit(#[trigger] s[i])
}

/// The digits of a word: the word without its plus sign, if it starts with
/// one.
pub open spec fn digits_of(word: Seq<u8>) -> Seq<u8> {
    if word.len() > 0 && word[0] == PLUS {
        word.skip(1)
    } else {
        word
    }
}

/// The process number that `word` writes: one or more decimal digits, with
/// or without a plus sign in front, whose value is a valid process number.
/// Any other word writes none.
pub open spec fn word_number(word: Seq<u8>) -> Option<int> {
    let digits = digits_of(word);
    if digits.len() > 0 && all_digits(digits) && Pid::valid(decimal_value(digits) as int) {
        Some(decimal_value(digits) as int)
    } else {
        None
    }
}

/// Digits all, a prefix writes no more than the whole.
pub proof fn lemma_decimal_value_prefix(digits: Seq<u8>, n: int)
    requires
        0 <= n <= digits.len(),
        all_digits(digits),
    ensures
        decimal_value(digits.take(n)) <= decimal_value(digits),
    decreases digits.len() - n,
{
    if n == digits.len() {
        assert(digits.take(n) =~= digits);
    } else {
        lemma_decimal_value_prefix(digits, n + 1);
        assert(digits.take(n + 1).drop_last() =~= digits.take(n));
        assert(is_digit(digits.take(n + 1).last()));
    }
}

/// Reads one word of a listing as a process handle.
pub fn parse_pid(word: &[u8]) -> (pid: Option<Pid>)
    ensures
        match pid {
            Some(p) => word_number(word@) == Some(p@),
            None => word_number(word@) is None,
        },
{
    let n: usize = word.len();
    let start: usize = if n > 0 && word[0] == PLUS {
        1
    } else {
        0
    };
    let ghost digits = digits_of(word@);
    let mut value: i64 = 0;
    let mut i: usize = start;
    while i < n
        invariant
            start <= i <= n,
            n == word@.len(),
            digits == digits_of(word@),
            digits == word@.skip(start as int),
            all_digits(digits.take(i - start)),
            value == decimal_value(digits.take(i - start)),
            value <= i32::MAX,
        decreases n - i,
    {
        let b: u8 = word[i];
        if !(DIGIT_ZERO <= b && b <= DIGIT_NINE) {
            assert(!is_digit(digits[i - start]));
            return None;
        }
        proof {
            assert(digits.take(i + 1 - start).drop_last() =~= digits.take(i - start));
            assert(digits.take(i + 1 - start).last() == b);
        }
        let next: i64 = value * 10 + (b - DIGIT_ZERO) as i64;
        if next > i32::MAX as i64 {
            proof {
                if all_digits(digits) {
                    lemma_decimal_value_prefix(digits, i + 1 - start);
                }
            }
            return None;
        }
        value = next;
        i += 1;
    }
    proof {
        assert(digits.take(n - start) =~= digits);
        if value > 0 {
            Pid::lemma_view_of(value as int);
        }
    }
    if start == n {
        None
    } else {
        Pid::from_raw(value as i32)
    }
}

/// Whether each word of `listing` writes a process number.
pub open spec fn well_formed(listing: Seq<u8>) -> bool {
    forall|i: int|
        0 <= i < words(listing).len() ==> word_number(#[trigger] words(listing)[i]) is Some
}

/// The handles that the words `ws` write, word by word.
pub open spec fn handles(ws: Seq<Seq<u8>>) -> Seq<Pid> {
    ws.map_values(|w: Seq<u8>| Pid::of(word_number(w)->0))
}

/// The children that `listing` names: the handle of each of its words, each
/// handle once, in the order in which the listing first names them. A
/// listing with a word that writes no process number names nothing.
pub open spec fn children(listing: Seq<u8>) -> Option<Seq<Pid>> {
    if well_formed(listing) {
        Some(handles(words(listing)).remove_duplicates(Seq::empty()))
    } else {
        None
    }
}

/// Dropping what is named again leaves nothing named twice.
proof fn lemma_remove_duplicates_distinct(s: Seq<Pid>, seen: Seq<Pid>)
    requires
        seen.no_duplicates(),
    ensures
        s.remove_duplicates(seen).no_duplicates(),
    decreases s.len(),
{
    if s.len() > 0 {
        if seen.contains(s[0]) {
            lemma_remove_duplicates_distinct(s.skip(1), seen);
        } else {
            lemma_remove_duplicates_distinct(s.skip(1), seen + seq![s[0]]);
        }
    }
}

/// What a well-formed listing names: no child twice, the handle of each of
/// its words and no other, and only handles with a valid number.
pub proof fn lemma_children(listing: Seq<u8>)
    requires
        well_formed(listing),
    ensures
        children(listing) is Some,
        children(listing)->0.no_duplicates(),
        forall|pid: Pid|
            children(listing)->0.contains(pid) <==> handles(words(listing)).contains(pid),
        forall|i: int|
            0 <= i < children(listing)->0.len() ==> Pid::valid(
                (#[trigger] children(listing)->0[i])@,
            ),
{
    let named = handles(words(listing));
    let found = children(listing)->0;
    lemma_remove_duplicates_distinct(named, Seq::empty());
    named.lemma_remove_duplicates_properties(Seq::empty());
    assert(named + Seq::<Pid>::empty() =~= named);
    assert forall|i: int| 0 <= i < found.len() implies Pid::valid((#[trigger] found[i])@) by {
        assert(found.contains(found[i]));
        let k = choose|k: int| 0 <= k < named.len() && named[k] == found[i];
        Pid::lemma_view_of(word_number(words(listing)[k])->0);
    }
}

/// A listing that holds nothing but blanks names no child.
pub proof fn lemma_blank_listing(listing: Seq<u8>)
    requires
        forall|i: int| 0 <= i < listing.len() ==> is_blank(#[trigger] listing[i]),
    ensures
        words(listing).len() == 0,
        children(listing) == Some(Seq::<Pid>::empty()),
    decreases listing.len(),
{
    if listing.len() > 0 {
        assert(is_blank(listing[0]));
        assert forall|i: int| 0 <= i < listing.skip(1).len() implies is_blank(
            #[trigger] listing.skip(1)[i],
        ) by {
            assert(listing.skip(1)[i] == listing[i + 1]);
        }
        lemma_blank_listing(listing.skip(1));
    }
    assert(handles(words(listing)) =~= Seq::<Pid>::empty());
}

/// A stretch without a blank that ends at a blank, or at the end, is a word.
proof fn lemma_word_len_is(s: Seq<u8>, n: int)
    requires
        0 <= n <= s.len(),
        forall|k: int| 0 <= k < n ==> !is_blank(#[trigger] s[k]),
        n == s.len() || is_blank(s[n]),
    ensures
        word_len(s) == n,
    decreases n,
{
    if n > 0 {
        lemma_word_len_is(s.skip(1), n - 1);
    }
}

fn blank(b: u8) -> (r: bool)
    ensures
        r == is_blank(b),
{
    b == SPACE || (TAB <= b && b <= CARRIAGE_RETURN)
}

fn holds(pids: &Vec<Pid>, pid: Pid) -> (found: bool)
    ensures
        found == pids@.contains(pid),
{
    let mut k: usize = 0;
    while k < pids.len()
        invariant
            k <= pids@.len(),
            forall|j: int| 0 <= j < k ==> pids@[j] != pid,
        decreases pids@.len() - k,
    {
        if pids[k] == pid {
            return true;
        }
        k += 1;
    }
    false
}

/// Reads a listing: the children it names, or nothing where one of its words
/// writes no process number.
pub fn parse_children(listing: &[u8]) -> (found: Option<Vec<Pid>>)
    ensures
        match found {
            Some(pids) => children(listing@) == Some(pids@),
            None => children(listing@) is None,
        },
{
    let n: usize = listing.len();
    let mut out: Vec<Pid> = Vec::new();
    let mut i: usize = 0;
    let ghost mut done: Seq<Seq<u8>> = Seq::empty();
    proof {
        assert(listing@.skip(0) =~= listing@);
    }
    while i < n
        invariant
            i <= n,
            n == listing@.len(),
            words(listing@) == done + words(listing@.skip(i as int)),
            forall|k: int| 0 <= k < done.len() ==> word_number(#[trigger] done[k]) is Some,
            out@ == handles(done).remove_duplicates(Seq::empty()),
        decreases n - i,
    {
        if blank(listing[i]) {
            proof {
                assert(listing@.skip(i as int).skip(1) =~= listing@.skip(i + 1));
            }
            i += 1;
        } else {
            let start: usize = i;
            let mut end: usize = i + 1;
            while end < n && !blank(listing[end])
                invariant
                    start < end <= n,
                    n == listing@.len(),
                    forall|k: int| start <= k < end ==> !is_blank(#[trigger] listing@[k]),
                decreases n - end,
            {
                end += 1;
            }
            let word: &[u8] = slice_subrange(listing, start, end);
            let ghost rest = listing@.skip(start as int);
            proof {
                lemma_word_len_is(rest, end - start);
                assert(rest.take(end - start) =~= word@);
                assert(rest.skip(end - start) =~= listing@.skip(end as int));
                assert(words(listing@) =~= done.push(word@) + words(listing@.skip(end as int)));
            }
            match parse_pid(word) {
                None => {
                    assert(words(listing@)[done.len() as int] == word@);
                    return None;
                },
                Some(pid) => {
                    let ghost before = handles(done);
                    proof {
                        pid.lemma_of_view();
                        assert(handles(done.push(word@)) =~= before + seq![pid]);
                        assert(before + Seq::<Pid>::empty() =~= before);
                        before.lemma_remove_duplicates_properties(Seq::empty());
                        before.lemma_remove_duplicates_append(pid, Seq::empty());
                    }
                    if !holds(&out, pid) {
                        out.push(pid);
                    }
                    proof {
                        done = done.push(word@);
                    }
                },
            }
            i = end;
        }
    }
    proof {
        assert(words(listing@) =~= done);
    }
    Some(out)
}

/// The decimal digits that write `n`, most significant digit first, with no
/// leading zero.
pub open spec fn decimal(n: nat) -> Seq<u8>
    decreases n,
{
    if n < 10 {
        seq![(DIGIT_ZERO + n) as u8]
    } else {
        decimal(n / 10).push((DIGIT_ZERO + n % 10) as u8)
    }
}

/// The bytes of a text of plain characters, one byte for each character.
pub open spec fn plain(text: Seq<char>) -> Seq<u8> {
    text.map_values(|c: char| c as u8)
}

/// Where the kernel lists the direct children of the process `pid`: the
/// `children` entry of the main thread of `pid` under `/proc`.
pub open spec fn listing_path(pid: Pid) -> Seq<u8> {
    plain("/proc/"@) + decimal(pid@ as nat) + plain("/task/"@) + decimal(pid@ as nat) + plain(
        "/children"@,
    )
}

/// A process number is read back from the digits that write it.
pub proof fn lemma_decimal_read_back(n: nat)
    requires
        Pid::valid(n as int),
    ensures
        word_number(decimal(n)) == Some(n as int),
{
    lemma_decimal_digits(n);
}

proof fn lemma_decimal_digits(n: nat)
    ensures
        decimal(n).len() > 0,
        all_digits(decimal(n)),
        decimal_value(decimal(n)) == n,
    decreases n,
{
    let digits = decimal(n);
    if n >= 10 {
        lemma_decimal_digits(n / 10);
        assert(digits.drop_last() =~= decimal(n / 10));
        assert(digits.last() == DIGIT_ZERO + n % 10);
    } else {
        assert(digits.drop_last() =~= Seq::<u8>::empty());
        assert(decimal_value(digits.drop_last()) == 0);
        assert(digits.last() == DIGIT_ZERO + n);
    }
}

fn push_bytes(out: &mut Vec<u8>, bytes: &[u8])
    ensures
        final(out)@ == old(out)@ + bytes@,
{
    let mut i: usize = 0;
    while i < bytes.len()
        invariant
            i <= bytes@.len(),
            out@ == old(out)@ + bytes@.take(i as int),
        decreases bytes@.len() - i,
    {
        out.push(bytes[i]);
        i += 1;
        proof {
            assert(bytes@.take(i as int) =~= bytes@.take(i - 1).push(bytes@[i - 1]));
        }
    }
    proof {
        assert(bytes@.take(i as int) =~= bytes@);
    }
}

fn push_decimal(out: &mut Vec<u8>, n: u32)
    ensures
        final(out)@ == old(out)@ + decimal(n as nat),
    decreases n,
{
    if n >= 10 {
        push_decimal(out, n / 10);
    }
    out.push(DIGIT_ZERO + (n % 10) as u8);
}

/// The path of the listing of the direct children of `pid`.
pub fn children_path(pid: Pid) -> (path: Vec<u8>)
    ensures
        path@ == listing_path(pid),
{
    let n: u32 = pid.as_raw() as u32;
    let mut path: Vec<u8> = Vec::new();
    proof {
        reveal_strlit("/proc/");
        reveal_strlit("/task/");
        reveal_strlit("/children");
        is_ascii_spec_bytes("/proc/");
        is_ascii_spec_bytes("/task/");
        is_ascii_spec_bytes("/children");
    }
    push_bytes(&mut path, "/proc/".as_bytes());
    push_decimal(&mut path, n);
    push_bytes(&mut path, "/task/".as_bytes());
    push_decimal(&mut path, n);
    push_bytes(&mut path, "/children".as_bytes());
    path
}

} // verus!
