use vstd::prelude::*;
use vstd::seq_lib::*;

use crate::entropy::rand_index;
use crate::error::VaultError;
use crate::text::{ascii_string, ascii_text, is_digit};

verus! {

/// Whether a byte is an ASCII capital.
pub open spec fn is_upper(b: u8) -> bool {
    0x41 <= b <= 0x5a
}

/// Whether a byte is an ASCII small letter.
pub open spec fn is_lower(b: u8) -> bool {
    0x61 <= b <= 0x7a
}

/// Whether a byte belongs to the alphabet of generated passwords: capitals,
/// small letters and digits.
pub open spec fn in_alphabet(b: u8) -> bool {
    is_upper(b) || is_lower(b) || is_digit(b)
}

/// The letter at an index of the alphabet: 26 capitals, then 26 small
/// letters, then 10 digits.
pub open spec fn alphabet_at(index: int) -> u8
    recommends
        0 <= index < 62,
{
    if index < 26 {
        (0x41 + index) as u8
    } else if index < 52 {
        (0x61 + index - 26) as u8
    } else {
        (0x30 + index - 52) as u8
    }
}

/// The number of letters of the alphabet.
pub const ALPHABET_LEN: usize = 62;

/// The letter at an index of the alphabet; none at an index beyond it.
pub fn alphabet_byte(index: usize) -> (r: Option<u8>)
    ensures
        r is Some <==> index < ALPHABET_LEN,
        r matches Some(b) ==> b == alphabet_at(index as int) && in_alphabet(b),
        r matches Some(b) ==> (index < 26 ==> is_upper(b)) && (26 <= index < 52 ==> is_lower(b)) && (
        52 <= index ==> is_digit(b)),
{
    if index < 26 {
        Some(0x41 + index as u8)
    } else if index < 52 {
        Some(0x61 + (index - 26) as u8)
    } else if index < ALPHABET_LEN {
        Some(0x30 + (index - 52) as u8)
    } else {
        None
    }
}

/// A sequence with the items at two positions exchanged.
pub open spec fn swapped(s: Seq<u8>, i: int, j: int) -> Seq<u8>
    recommends
        0 <= i < s.len(),
        0 <= j < s.len(),
{
    s.update(i, s[j]).update(j, s[i])
}

/// Whether a list of picks fits a sequence of `len` items: there is one pick
/// for each position from the last down to the second, and each pick is a
/// position no higher than the one it is made for.
pub open spec fn picks_fit(len: int, picks: Seq<usize>) -> bool {
    &&& picks.len() == if len == 0 {
        0
    } else {
        len - 1
    }
    &&& forall|k: int| 0 <= k < picks.len() ==> #[trigger] picks[k] <= picks.len() - k
}

/// What the Fisher-Yates shuffle makes of a sequence with given picks: the
/// first pick is exchanged with the last position, the next with the one
/// before, down to the second position.
pub open spec fn shuffled(s: Seq<u8>, picks: Seq<usize>) -> Seq<u8>
    decreases picks.len(),
{
    if picks.len() == 0 {
        s
    } else {
        shuffled(swapped(s, picks.len() as int, picks[0] as int), picks.drop_first())
    }
}

/// Exchanging two items keeps the items of a sequence, each as often as
/// before.
pub proof fn lemma_swapped_permutes(s: Seq<u8>, i: int, j: int)
    requires
        0 <= i < s.len(),
        0 <= j < s.len(),
    ensures
        swapped(s, i, j).len() == s.len(),
        swapped(s, i, j).to_multiset() == s.to_multiset(),
{
    broadcast use vstd::multiset::group_multiset_axioms;

    to_multiset_update(s, i, s[j]);
    to_multiset_update(s.update(i, s[j]), j, s[i]);
    to_multiset_contains(s, s[i]);
    to_multiset_contains(s, s[j]);
    assert(s.contains(s[i]));
    assert(s.contains(s[j]));
    assert(swapped(s, i, j).to_multiset() =~= s.to_multiset());
}

/// A shuffle keeps the items of a sequence, each as often as before.
pub proof fn lemma_shuffled_permutes(s: Seq<u8>, picks: Seq<usize>)
    requires
        picks.len() < s.len() || (picks.len() == 0 && s.len() == 0),
        forall|k: int| 0 <= k < picks.len() ==> #[trigger] picks[k] <= picks.len() - k,
    ensures
        shuffled(s, picks).len() == s.len(),
        shuffled(s, picks).to_multiset() == s.to_multiset(),
    decreases picks.len(),
{
    if picks.len() > 0 {
        let i = picks.len() as int;
        let j = picks[0] as int;
        lemma_swapped_permutes(s, i, j);
        let rest = picks.drop_first();
        assert forall|k: int| 0 <= k < rest.len() implies #[trigger] rest[k] <= rest.len() - k by {
            assert(rest[k] == picks[k + 1]);
        }
        lemma_shuffled_permutes(swapped(s, i, j), rest);
    }
}

/// Whether a list of picks fits a vector of `len` items.
pub fn check_picks(len: usize, picks: &Vec<usize>) -> (r: bool)
    ensures
        r == picks_fit(len as int, picks@),
{
    let wanted: usize = if len == 0 {
        0
    } else {
        len - 1
    };
    if picks.len() != wanted {
        return false;
    }
    let mut k: usize = 0;
    while k < picks.len()
        invariant
            picks@.len() == wanted,
            k <= picks@.len(),
            forall|m: int| 0 <= m < k ==> #[trigger] picks@[m] <= picks@.len() - m,
        decreases picks@.len() - k,
    {
        if picks[k] > picks.len() - k {
            return false;
        }
        k += 1;
    }
    true
}

/// Shuffles a vector in place with given picks, as `shuffled` says. Picks
/// that do not fit the vector leave it as it is; the result says whether they
/// fitted.
pub fn shuffle_with(data: &mut Vec<u8>, picks: &Vec<usize>) -> (done: bool)
    ensures
        done == picks_fit(old(data)@.len() as int, picks@),
        done ==> final(data)@ == shuffled(old(data)@, picks@),
        !done ==> final(data)@ == old(data)@,
{
    if !check_picks(data.len(), picks) {
        return false;
    }
    let mut k: usize = 0;
    assert(picks@.skip(0) == picks@);
    while k < picks.len()
        invariant
            picks_fit(old(data)@.len() as int, picks@),
            data@.len() == old(data)@.len(),
            k <= picks@.len(),
            shuffled(old(data)@, picks@) == shuffled(data@, picks@.skip(k as int)),
        decreases picks@.len() - k,
    {
        let i: usize = picks.len() - k;
        let j: usize = picks[k];
        let ghost before = data@;
        let ghost rest = picks@.skip(k as int);
        assert(rest.len() == picks@.len() - k);
        assert(rest[0] == picks@[k as int]);
        assert(rest.drop_first() == picks@.skip(k + 1));
        let at_i: u8 = data[i];
        let at_j: u8 = data[j];
        data.set(i, at_j);
        data.set(j, at_i);
        assert(data@ == swapped(before, i as int, j as int));
        k += 1;
    }
    true
}

/// Draws the picks of a shuffle of `len` items: for each position from the
/// last down to the second, an index no higher than the position.
fn draw_picks(len: usize) -> (r: Result<Vec<usize>, VaultError>)
    ensures
        match r {
            Ok(picks) => picks_fit(len as int, picks@),
            Err(e) => e == VaultError::RandomSource,
        },
{
    let mut picks: Vec<usize> = Vec::new();
    if len <= 1 {
        return Ok(picks);
    }
    let mut i: usize = len - 1;
    while i > 0
        invariant
            len > 1,
            i < len,
            picks@.len() == len - 1 - i,
            forall|k: int| 0 <= k < picks@.len() ==> #[trigger] picks@[k] <= len - 1 - k,
        decreases i,
    {
        let j = rand_index(i + 1)?;
        picks.push(j);
        i -= 1;
    }
    Ok(picks)
}

/// Shuffles a vector in place, every arrangement with the same chance
/// (Fisher-Yates): for each position from the last down to the second, an
/// index no higher than the position is drawn and the two items are
/// exchanged.
///
/// The vector keeps its items, each as often as before. When the generator
/// fails, the vector is left as it was.
pub fn fisher_yates_shuffle(data: &mut Vec<u8>) -> (r: Result<(), VaultError>)
    ensures
        final(data)@.len() == old(data)@.len(),
        final(data)@.to_multiset() == old(data)@.to_multiset(),
        match r {
            Ok(_) => exists|picks: Seq<usize>|
                picks_fit(old(data)@.len() as int, picks) && final(data)@ == #[trigger] shuffled(
                    old(data)@,
                    picks,
                ),
            Err(e) => e == VaultError::RandomSource && final(data)@ == old(data)@,
        },
{
    let picks = draw_picks(data.len())?;
    proof {
        lemma_shuffled_permutes(data@, picks@);
    }
    let done = shuffle_with(data, &picks);
    assert(done);
    Ok(())
}

/// Whether a sequence of bytes holds one that satisfies `wanted`.
pub open spec fn holds(s: Seq<u8>, wanted: spec_fn(u8) -> bool) -> bool {
    exists|i: int| 0 <= i < s.len() && wanted(#[trigger] s[i])
}

/// What every generated password of `len` characters satisfies: it has that
/// length, all its characters are of the alphabet, and as far as its length
/// allows it holds a capital, a small letter and a digit.
pub open spec fn is_password(bytes: Seq<u8>, len: int) -> bool {
    &&& bytes.len() == len
    &&& forall|i: int| 0 <= i < bytes.len() ==> in_alphabet(#[trigger] bytes[i])
    &&& len >= 1 ==> holds(bytes, |b: u8| is_upper(b))
    &&& len >= 2 ==> holds(bytes, |b: u8| is_lower(b))
    &&& len >= 3 ==> holds(bytes, |b: u8| is_digit(b))
}

/// Two sequences with the same items satisfy `is_password` alike.
proof fn lemma_is_password_of_items(a: Seq<u8>, b: Seq<u8>, len: int)
    requires
        is_password(a, len),
        a.len() == b.len(),
        a.to_multiset() == b.to_multiset(),
    ensures
        is_password(b, len),
{
    assert forall|x: u8| a.contains(x) == b.contains(x) by {
        to_multiset_contains(a, x);
        to_multiset_contains(b, x);
    }
    assert forall|i: int| 0 <= i < b.len() implies in_alphabet(#[trigger] b[i]) by {
        assert(b.contains(b[i]));
        assert(a.contains(b[i]));
        let k = choose|k: int| 0 <= k < a.len() && a[k] == b[i];
        assert(in_alphabet(a[k]));
    }
    let upper = |b: u8| is_upper(b);
    let lower = |b: u8| is_lower(b);
    let digit = |b: u8| is_digit(b);
    if len >= 1 {
        let i = choose|i: int| 0 <= i < a.len() && upper(#[trigger] a[i]);
        assert(a.contains(a[i]));
        let k = choose|k: int| 0 <= k < b.len() && b[k] == a[i];
        assert(upper(b[k]));
    }
    if len >= 2 {
        let i = choose|i: int| 0 <= i < a.len() && lower(#[trigger] a[i]);
        assert(a.contains(a[i]));
        let k = choose|k: int| 0 <= k < b.len() && b[k] == a[i];
        assert(lower(b[k]));
    }
    if len >= 3 {
        let i = choose|i: int| 0 <= i < a.len() && digit(#[trigger] a[i]);
        assert(a.contains(a[i]));
        let k = choose|k: int| 0 <= k < b.len() && b[k] == a[i];
        assert(digit(b[k]));
    }
}

/// Generates a password of `len` characters from capitals, small letters and
/// digits, drawn from the operating system's generator.
///
/// One letter of each of the three classes is drawn first, as far as the
/// length allows; the rest is drawn from the whole alphabet; then the
/// characters are shuffled, so that no class has a fixed place. A length of
/// zero gives the empty password. The call fails with `RandomSource` when the
/// generator fails.
pub fn generate_password(len: usize) -> (r: Result<String, VaultError>)
    ensures
        match r {
            Ok(password) => exists|bytes: Seq<u8>|
                #![trigger ascii_text(bytes)]
                is_password(bytes, len as int) && password@ == ascii_text(bytes),
            Err(e) => e == VaultError::RandomSource && len > 0,
        },
{
    let mut bytes: Vec<u8> = Vec::new();
    if len == 0 {
        assert(is_password(bytes@, 0));
        return Ok(ascii_string(bytes));
    }
    if len >= 1 {
        let index = rand_index(26)?;
        bytes.push(alphabet_byte(index).unwrap());
        assert(is_upper(bytes@[0]));
    }
    if len >= 2 {
        let index = rand_index(26)?;
        bytes.push(alphabet_byte(26 + index).unwrap());
        assert(is_lower(bytes@[1]));
    }
    if len >= 3 {
        let index = rand_index(10)?;
        bytes.push(alphabet_byte(52 + index).unwrap());
        assert(is_digit(bytes@[2]));
    }
    while bytes.len() < len
        invariant
            bytes@.len() <= len,
            len >= 3 ==> bytes@.len() >= 3,
            len < 3 ==> bytes@.len() == len,
            forall|i: int| 0 <= i < bytes@.len() ==> in_alphabet(#[trigger] bytes@[i]),
            len >= 1 ==> is_upper(bytes@[0]),
            len >= 2 ==> is_lower(bytes@[1]),
            len >= 3 ==> is_digit(bytes@[2]),
        decreases len - bytes@.len(),
    {
        let index = rand_index(ALPHABET_LEN)?;
        bytes.push(alphabet_byte(index).unwrap());
    }
    let ghost drawn = bytes@;
    proof {
        let upper = |b: u8| is_upper(b);
        let lower = |b: u8| is_lower(b);
        let digit = |b: u8| is_digit(b);
        if len >= 1 {
            assert(upper(drawn[0]));
        }
        if len >= 2 {
            assert(lower(drawn[1]));
        }
        if len >= 3 {
            assert(digit(drawn[2]));
        }
        assert(is_password(drawn, len as int));
    }
    fisher_yates_shuffle(&mut bytes)?;
    proof {
        lemma_is_password_of_items(drawn, bytes@, len as int);
    }
    Ok(ascii_string(bytes))
}

} // verus!
