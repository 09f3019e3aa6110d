//! Track identifiers: the key under which a cache entry is stored.

use vstd::prelude::*;

verus! {

/// The ASCII decimal digits of `n`, most significant first: the exact
/// bytes a cache path writes a number with.
pub open spec fn decimal_rep(n: nat) -> Seq<u8>
    decreases n,
{
    if n < 10 {
        seq![(48 + n) as u8]
    } else {
        decimal_rep(n / 10).push((48 + n % 10) as u8)
    }
}

/// Every byte of a decimal representation is an ASCII digit — in
/// particular never the path separator, so the three components of a
/// cache path stay apart.
pub proof fn lemma_decimal_rep_is_digits(n: nat)
    ensures
        decimal_rep(n).len() >= 1,
        forall|k: int|
            0 <= k < decimal_rep(n).len() ==> 48 <= #[trigger] decimal_rep(n)[k] <= 57,
    decreases n,
{
    if n >= 10 {
        lemma_decimal_rep_is_digits(n / 10);
    }
}

/// Appends the decimal digits of `n` to `out`.
fn push_decimal(out: &mut Vec<u8>, n: u32)
    ensures
        final(out)@ == old(out)@ + decimal_rep(n as nat),
{
    let mut digits: Vec<u8> = Vec::new();
    let mut cur: u32 = n;
    digits.push(48 + (cur % 10) as u8);
    cur = cur / 10;
    proof {
        if cur > 0 {
            assert(decimal_rep(n as nat) =~= decimal_rep(cur as nat) + digits@.reverse());
        } else {
            assert(decimal_rep(n as nat) =~= digits@.reverse());
        }
    }
    while cur > 0
        invariant
            digits@.len() >= 1,
            cur > 0 ==> decimal_rep(n as nat) == decimal_rep(cur as nat) + digits@.reverse(),
            cur == 0 ==> decimal_rep(n as nat) == digits@.reverse(),
        decreases cur,
    {
        let ghost before = digits@;
        let ghost cur_before = cur as nat;
        digits.push(48 + (cur % 10) as u8);
        cur = cur / 10;
        proof {
            assert(digits@.reverse() =~= seq![(48 + cur_before % 10) as u8] + before.reverse());
            if cur > 0 {
                assert(decimal_rep(cur_before) =~= decimal_rep(cur as nat) + seq![
                    (48 + cur_before % 10) as u8,
                ]);
                assert(decimal_rep(n as nat) =~= decimal_rep(cur as nat) + digits@.reverse());
            } else {
                assert(decimal_rep(cur_before) =~= seq![(48 + cur_before % 10) as u8]);
                assert(decimal_rep(n as nat) =~= digits@.reverse());
            }
        }
    }
    let mut i: usize = digits.len();
    while i > 0
        invariant
            i <= digits@.len(),
            decimal_rep(n as nat) == digits@.reverse(),
            out@ == old(out)@ + digits@.reverse().take(digits@.len() - i),
        decreases i,
    {
        i = i - 1;
        out.push(digits[i]);
        proof {
            assert(digits@.reverse()[digits@.len() - i - 1] == digits@[i as int]);
            assert(out@ =~= old(out)@ + digits@.reverse().take(digits@.len() - i));
        }
    }
    proof {
        assert(digits@.reverse().take(digits@.len() as int) =~= digits@.reverse());
    }
}

/// Identifies one track of one disc of one album. The album is named by a
/// numeric catalogue id; disc and track numbers are small and one-based.
#[derive(Clone, Copy, Debug, PartialEq, Eq, Structural, Hash)]
pub struct TrackIdentifier {
    pub album_id: u32,
    pub disc_id: u8,
    pub track_id: u8,
}

impl TrackIdentifier {
    pub fn new(album_id: u32, disc_id: u8, track_id: u8) -> (t: TrackIdentifier)
        ensures
            t.album_id == album_id,
            t.disc_id == disc_id,
            t.track_id == track_id,
    {
        TrackIdentifier { album_id, disc_id, track_id }
    }

    /// The relative cache path of this track, as ASCII bytes: the album,
    /// disc and track numbers in decimal, separated by `/`. Every track
    /// maps to the same path on every call — the cache entry's address
    /// is a pure function of the identifier.
    pub fn cache_relative_path(&self) -> (p: Vec<u8>)
        ensures
            p@ == decimal_rep(self.album_id as nat) + seq![47u8] + decimal_rep(
                self.disc_id as nat,
            ) + seq![47u8] + decimal_rep(self.track_id as nat),
    {
        let mut out: Vec<u8> = Vec::new();
        push_decimal(&mut out, self.album_id);
        out.push(47);
        push_decimal(&mut out, self.disc_id as u32);
        out.push(47);
        push_decimal(&mut out, self.track_id as u32);
        proof {
            assert(out@ =~= decimal_rep(self.album_id as nat) + seq![47u8] + decimal_rep(
                self.disc_id as nat,
            ) + seq![47u8] + decimal_rep(self.track_id as nat));
        }
        out
    }
}

} // verus!
