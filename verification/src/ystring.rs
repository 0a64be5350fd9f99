//! A growable byte string with the compound operations the value union
//! needs: lexicographic comparison, concatenation, subtraction (removing the
//! last occurrence of the subtrahend) and character-level increment and
//! decrement.

use vstd::prelude::*;

use crate::errors::RuntimeErr;
use crate::errors::ValueResult;
use crate::number::digits_of;
use vstd::string::StringSliceAdditionalSpecFns;

verus! {

/// A growable byte string.
#[derive(Debug)]
pub struct YString {
    pub data: Vec<u8>,
}

impl View for YString {
    type V = Seq<u8>;

    open spec fn view(&self) -> Seq<u8> {
        self.data@
    }
}

/// Strict lexicographic byte order: the empty string comes first, and a
/// proper prefix comes before what extends it.
pub open spec fn bytes_lt(a: Seq<u8>, b: Seq<u8>) -> bool
    decreases a.len(),
{
    if b.len() == 0 {
        false
    } else if a.len() == 0 {
        true
    } else if a[0] < b[0] {
        true
    } else if a[0] > b[0] {
        false
    } else {
        bytes_lt(a.drop_first(), b.drop_first())
    }
}

/// Non-strict lexicographic byte order.
pub open spec fn bytes_le(a: Seq<u8>, b: Seq<u8>) -> bool
    decreases a.len(),
{
    if a.len() == 0 {
        true
    } else if b.len() == 0 {
        false
    } else if a[0] < b[0] {
        true
    } else if a[0] > b[0] {
        false
    } else {
        bytes_le(a.drop_first(), b.drop_first())
    }
}

/// Whether the needle `b` occurs in `a` starting at position `i`.
pub open spec fn is_match_at(a: Seq<u8>, b: Seq<u8>, i: int) -> bool {
    &&& 0 <= i
    &&& i + b.len() <= a.len()
    &&& a.subrange(i, i + b.len() as int) == b
}

/// The largest match position below `hi`, if any.
pub open spec fn last_match_before(a: Seq<u8>, b: Seq<u8>, hi: int) -> Option<int>
    decreases (if hi >= 0 { hi } else { 0 }),
{
    if hi <= 0 {
        None
    } else if is_match_at(a, b, hi - 1) {
        Some(hi - 1)
    } else {
        last_match_before(a, b, hi - 1)
    }
}

/// String subtraction: `a` with its last occurrence of `b` removed, or `a`
/// itself when `b` does not occur.
pub open spec fn str_sub(a: Seq<u8>, b: Seq<u8>) -> Seq<u8> {
    match last_match_before(a, b, a.len() - b.len() + 1) {
        None => a,
        Some(i) => a.subrange(0, i) + a.subrange(i + b.len() as int, a.len() as int),
    }
}

impl YString {
    /// The empty string.
    pub fn new() -> (r: Self)
        ensures
            r@ == Seq::<u8>::empty(),
    {
        YString { data: Vec::new() }
    }

    pub fn len(&self) -> (r: usize)
        ensures
            r == self@.len(),
    {
        self.data.len()
    }

    pub fn is_empty(&self) -> (r: bool)
        ensures
            r == (self@.len() == 0),
    {
        self.data.len() == 0
    }

    /// Append one byte.
    pub fn push(&mut self, b: u8)
        ensures
            final(self)@ == old(self)@.push(b),
    {
        self.data.push(b);
    }

    /// Empty the string, keeping its storage.
    pub fn clear(&mut self)
        ensures
            final(self)@ == Seq::<u8>::empty(),
    {
        self.data.clear();
    }

    /// Take another string's content, reusing this string's storage.
    pub fn clone_from(&mut self, source: &YString)
        ensures
            final(self)@ == source@,
    {
        self.data.clear();
        let n = source.data.len();
        let mut i: usize = 0;
        while i < n
            invariant
                i <= n,
                n == source@.len(),
                self@ == source@.take(i as int),
            decreases n - i,
        {
            self.data.push(source.data[i]);
            proof {
                assert(self@ =~= source@.take(i + 1));
            }
            i = i + 1;
        }
        proof {
            assert(source@.take(n as int) =~= source@);
        }
    }

    /// Strict lexicographic comparison.
    pub fn lt(&self, other: &YString) -> (r: bool)
        ensures
            r == bytes_lt(self@, other@),
    {
        let a = &self.data;
        let b = &other.data;
        let mut i: usize = 0;
        proof {
            assert(a@.skip(0) =~= a@);
            assert(b@.skip(0) =~= b@);
        }
        loop
            invariant
                i <= a.len(),
                i <= b.len(),
                a@ == self@,
                b@ == other@,
                bytes_lt(self@, other@) == bytes_lt(a@.skip(i as int), b@.skip(i as int)),
            decreases a.len() - i,
        {
            if i == b.len() {
                proof {
                    assert(b@.skip(i as int).len() == 0);
                }
                return false;
            }
            if i == a.len() {
                proof {
                    assert(a@.skip(i as int).len() == 0);
                    assert(b@.skip(i as int).len() > 0);
                }
                return true;
            }
            if a[i] < b[i] {
                proof {
                    assert(a@.skip(i as int)[0] == a@[i as int]);
                    assert(b@.skip(i as int)[0] == b@[i as int]);
                }
                return true;
            }
            if a[i] > b[i] {
                proof {
                    assert(a@.skip(i as int)[0] == a@[i as int]);
                    assert(b@.skip(i as int)[0] == b@[i as int]);
                }
                return false;
            }
            proof {
                assert(a@.skip(i as int)[0] == b@.skip(i as int)[0]);
                assert(a@.skip(i as int).drop_first() =~= a@.skip(i + 1));
                assert(b@.skip(i as int).drop_first() =~= b@.skip(i + 1));
            }
            i = i + 1;
        }
    }

    /// Non-strict lexicographic comparison.
    pub fn le(&self, other: &YString) -> (r: bool)
        ensures
            r == bytes_le(self@, other@),
    {
        let a = &self.data;
        let b = &other.data;
        let mut i: usize = 0;
        proof {
            assert(a@.skip(0) =~= a@);
            assert(b@.skip(0) =~= b@);
        }
        loop
            invariant
                i <= a.len(),
                i <= b.len(),
                a@ == self@,
                b@ == other@,
                bytes_le(self@, other@) == bytes_le(a@.skip(i as int), b@.skip(i as int)),
            decreases a.len() - i,
        {
            if i == a.len() {
                proof {
                    assert(a@.skip(i as int).len() == 0);
                }
                return true;
            }
            if i == b.len() {
                proof {
                    assert(b@.skip(i as int).len() == 0);
                    assert(a@.skip(i as int).len() > 0);
                }
                return false;
            }
            if a[i] < b[i] {
                proof {
                    assert(a@.skip(i as int)[0] == a@[i as int]);
                    assert(b@.skip(i as int)[0] == b@[i as int]);
                }
                return true;
            }
            if a[i] > b[i] {
                proof {
                    assert(a@.skip(i as int)[0] == a@[i as int]);
                    assert(b@.skip(i as int)[0] == b@[i as int]);
                }
                return false;
            }
            proof {
                assert(a@.skip(i as int)[0] == b@.skip(i as int)[0]);
                assert(a@.skip(i as int).drop_first() =~= a@.skip(i + 1));
                assert(b@.skip(i as int).drop_first() =~= b@.skip(i + 1));
            }
            i = i + 1;
        }
    }

    /// Concatenation: append the other string's bytes.
    pub fn add_assign(&mut self, other: &YString)
        ensures
            final(self)@ == old(self)@ + other@,
    {
        let n = other.data.len();
        let mut i: usize = 0;
        while i < n
            invariant
                i <= n,
                n == other@.len(),
                self@ == old(self)@ + other@.take(i as int),
            decreases n - i,
        {
            self.data.push(other.data[i]);
            proof {
                assert(old(self)@ + other@.take(i as int) + seq![other@[i as int]] =~= old(self)@
                    + other@.take(i + 1));
            }
            i = i + 1;
        }
        proof {
            assert(old(self)@ + other@.take(n as int) =~= old(self)@ + other@);
        }
    }

    /// Remove the last character; an error when the string is empty.
    pub fn pre_dec(&mut self) -> (r: ValueResult<()>)
        ensures
            old(self)@.len() == 0 ==> r == Err::<(), RuntimeErr>(RuntimeErr::EmptyStr)
                && final(self)@ == old(self)@,
            old(self)@.len() > 0 ==> r == Ok::<(), RuntimeErr>(())
                && final(self)@ == old(self)@.drop_last(),
    {
        if self.data.len() == 0 {
            Err(RuntimeErr::EmptyStr)
        } else {
            let _ = self.data.pop();
            Ok(())
        }
    }

    /// Prepend one space character.
    pub fn pre_inc(&mut self)
        ensures
            final(self)@ == seq![32u8] + old(self)@,
    {
        self.data.insert(0, 32);
        proof {
            assert(self@ =~= seq![32u8] + old(self)@);
        }
    }

    /// Whether `other` occurs in this string starting at byte `at`.
    fn matches_at(&self, other: &YString, at: usize) -> (r: bool)
        requires
            at + other@.len() <= self@.len(),
        ensures
            r == is_match_at(self@, other@, at as int),
    {
        let m = other.data.len();
        let n = self.data.len();
        let mut j: usize = 0;
        while j < m
            invariant
                j <= m,
                m == other@.len(),
                n == self@.len(),
                at + m <= n,
                forall|k: int| 0 <= k < j ==> self@[at + k] == other@[k],
            decreases m - j,
        {
            if self.data[at + j] != other.data[j] {
                proof {
                    assert(self@.subrange(at as int, at + m) != other@) by {
                        assert(self@.subrange(at as int, at + m)[j as int] == self@[at + j]);
                    }
                }
                return false;
            }
            j = j + 1;
        }
        proof {
            assert(self@.subrange(at as int, at + m) =~= other@);
        }
        true
    }

    /// String subtraction: remove the last occurrence of `other`, or leave
    /// the string unchanged when `other` does not occur in it.
    pub fn sub_assign(&mut self, other: &YString)
        ensures
            final(self)@ == str_sub(old(self)@, other@),
    {
        let n = self.data.len();
        let m = other.data.len();
        if m > n {
            return ;
        }
        if m == 0 {
            proof {
                assert(is_match_at(self@, other@, n as int)) by {
                    assert(self@.subrange(n as int, n as int) =~= other@);
                }
                assert(self@.subrange(0, n as int) + self@.subrange(n as int, n as int)
                    =~= self@);
            }
            return ;
        }
        let mut hi: usize = n - m + 1;
        while hi > 0
            invariant
                hi <= self@.len() - other@.len() + 1,
                self@ == old(self)@,
                m == other@.len(),
                n == self@.len(),
                last_match_before(self@, other@, self@.len() - other@.len() + 1)
                    == last_match_before(self@, other@, hi as int),
            decreases hi,
        {
            if self.matches_at(other, hi - 1) {
                let at = hi - 1;
                let mut rebuilt: Vec<u8> = Vec::new();
                let mut i: usize = 0;
                while i < at
                    invariant
                        i <= at,
                        at + m <= self@.len(),
                        self@ == old(self)@,
                        rebuilt@ == self@.take(i as int),
                    decreases at - i,
                {
                    rebuilt.push(self.data[i]);
                    proof {
                        assert(rebuilt@ =~= self@.take(i + 1));
                    }
                    i = i + 1;
                }
                let mut j: usize = at + m;
                while j < n
                    invariant
                        at + m <= j <= n,
                        n == self@.len(),
                        self@ == old(self)@,
                        rebuilt@ == self@.take(at as int) + self@.subrange(at + m, j as int),
                    decreases n - j,
                {
                    rebuilt.push(self.data[j]);
                    proof {
                        assert(rebuilt@ =~= self@.take(at as int) + self@.subrange(
                            at + m,
                            j + 1,
                        ));
                    }
                    j = j + 1;
                }
                proof {
                    assert(self@.take(at as int) == self@.subrange(0, at as int));
                }
                self.data = rebuilt;
                return ;
            }
            hi = hi - 1;
        }
    }
}

impl Clone for YString {
    /// Cloning copies the bytes.
    fn clone(&self) -> (r: Self)
        ensures
            r@ == self@,
    {
        let mut r = YString { data: Vec::new() };
        r.clone_from(self);
        r
    }
}

impl Default for YString {
    /// The default string is empty.
    fn default() -> (r: Self)
        ensures
            r@ == Seq::<u8>::empty(),
    {
        YString { data: Vec::new() }
    }
}

impl PartialEq for YString {
    fn eq(&self, other: &YString) -> (r: bool) {
        let mut i: usize = 0;
        if self.data.len() != other.data.len() {
            return false;
        }
        let n = self.data.len();
        while i < n
            invariant
                i <= n,
                n == self@.len(),
                n == other@.len(),
                forall|k: int| 0 <= k < i ==> self@[k] == other@[k],
            decreases n - i,
        {
            if self.data[i] != other.data[i] {
                return false;
            }
            i = i + 1;
        }
        proof {
            assert(self@ =~= other@);
        }
        true
    }
}

impl Eq for YString {

}

impl vstd::std_specs::cmp::PartialEqSpecImpl for YString {
    open spec fn obeys_eq_spec() -> bool {
        true
    }

    open spec fn eq_spec(&self, other: &YString) -> bool {
        self@ == other@
    }
}

/// ASCII characters read as the bytes with the same code points.
pub open spec fn str_bytes(cs: Seq<char>) -> Seq<u8> {
    Seq::new(cs.len(), |i: int| cs[i] as u8)
}

impl YString {
    /// Append the decimal digits of `x`, most significant first.
    pub fn push_digits(&mut self, x: u64)
        ensures
            final(self)@ == old(self)@ + digits_of(x as nat),
    {
        let ghost base = self@;
        let mut tmp: Vec<u8> = Vec::new();
        let mut y: u64 = x;
        loop
            invariant_except_break
                y <= x,
                tmp@.len() == 0 || y != 0,
                digits_of(x as nat) == if tmp@.len() == 0 {
                    digits_of(y as nat)
                } else {
                    digits_of(y as nat) + tmp@.reverse()
                },
            ensures
                digits_of(x as nat) == tmp@.reverse(),
                tmp@.len() >= 1,
            decreases y,
        {
            let d: u8 = (y % 10 + 48) as u8;
            let y2 = y / 10;
            proof {
                let ghost t2 = tmp@.push(d);
                assert(t2.reverse() =~= seq![d] + tmp@.reverse());
                if y2 == 0 {
                    assert(y < 10);
                    assert(digits_of(y as nat) =~= seq![d]);
                    assert(seq![d] + tmp@.reverse() =~= t2.reverse());
                    assert(digits_of(x as nat) =~= t2.reverse());
                } else {
                    assert(y >= 10);
                    assert(digits_of(y as nat) == digits_of((y / 10) as nat).push(d));
                    assert(digits_of((y / 10) as nat).push(d) =~= digits_of((y / 10) as nat)
                        + seq![d]);
                    if tmp@.len() == 0 {
                        assert(digits_of(x as nat) =~= digits_of(y2 as nat) + t2.reverse());
                    } else {
                        assert(digits_of(y as nat) + tmp@.reverse() =~= digits_of(y2 as nat)
                            + t2.reverse());
                    }
                }
            }
            tmp.push(d);
            y = y2;
            if y == 0 {
                break ;
            }
        }
        let tn = tmp.len();
        let mut j: usize = 0;
        while j < tn
            invariant
                j <= tn,
                tn == tmp@.len(),
                tn >= 1,
                self@ == base + tmp@.reverse().take(j as int),
                digits_of(x as nat) == tmp@.reverse(),
            decreases tn - j,
        {
            self.data.push(tmp[tn - 1 - j]);
            proof {
                assert(tmp@.reverse()[j as int] == tmp@[tn - 1 - j]);
                assert(self@ =~= base + tmp@.reverse().take(j + 1));
            }
            j = j + 1;
        }
        proof {
            assert(tmp@.reverse().take(tn as int) =~= tmp@.reverse());
            assert(self@ =~= base + digits_of(x as nat));
        }
    }

    /// Append an ASCII string's bytes.
    pub fn push_str(&mut self, s: &str)
        requires
            s.is_ascii(),
        ensures
            final(self)@ == old(self)@ + str_bytes(s@),
    {
        proof {
            vstd::string::is_ascii_spec_bytes(s);
            assert(s.spec_bytes() =~= str_bytes(s@));
        }
        let b = s.as_bytes();
        let n = b.len();
        let mut i: usize = 0;
        while i < n
            invariant
                i <= n,
                n == b@.len(),
                b@ == str_bytes(s@),
                self@ == old(self)@ + str_bytes(s@).take(i as int),
            decreases n - i,
        {
            self.data.push(b[i]);
            proof {
                assert(self@ =~= old(self)@ + str_bytes(s@).take(i + 1));
            }
            i = i + 1;
        }
        proof {
            assert(old(self)@ + str_bytes(s@).take(n as int) =~= old(self)@ + str_bytes(s@));
        }
    }
}

/// The UTF-8 encoding of one character, by code-point range.
pub open spec fn char_utf8(c: char) -> Seq<u8> {
    let u = c as int;
    if u < 0x80 {
        seq![u as u8]
    } else if u < 0x800 {
        seq![(0xC0 + u / 64) as u8, (0x80 + u % 64) as u8]
    } else if u < 0x10000 {
        seq![
            (0xE0 + u / 4096) as u8,
            (0x80 + (u / 64) % 64) as u8,
            (0x80 + u % 64) as u8,
        ]
    } else {
        seq![
            (0xF0 + u / 262144) as u8,
            (0x80 + (u / 4096) % 64) as u8,
            (0x80 + (u / 64) % 64) as u8,
            (0x80 + u % 64) as u8,
        ]
    }
}

impl YString {
    /// Append one character's UTF-8 bytes.
    pub fn push_char(&mut self, c: char)
        ensures
            final(self)@ == old(self)@ + char_utf8(c),
    {
        let u = c as u32;
        if u < 0x80 {
            self.data.push(u as u8);
            proof {
                assert(self@ =~= old(self)@ + char_utf8(c));
            }
        } else if u < 0x800 {
            self.data.push((0xC0 + u / 64) as u8);
            self.data.push((0x80 + u % 64) as u8);
            proof {
                assert(self@ =~= old(self)@ + char_utf8(c));
            }
        } else if u < 0x10000 {
            self.data.push((0xE0 + u / 4096) as u8);
            self.data.push((0x80 + (u / 64) % 64) as u8);
            self.data.push((0x80 + u % 64) as u8);
            proof {
                assert(self@ =~= old(self)@ + char_utf8(c));
            }
        } else {
            self.data.push((0xF0 + u / 262144) as u8);
            self.data.push((0x80 + (u / 4096) % 64) as u8);
            self.data.push((0x80 + (u / 64) % 64) as u8);
            self.data.push((0x80 + u % 64) as u8);
            proof {
                assert(self@ =~= old(self)@ + char_utf8(c));
            }
        }
    }
}

} // verus!
