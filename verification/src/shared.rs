//! The interchange types exchanged with the engine side: the growable array
//! container, the sample-format tag, and the parameter record. Field order is
//! significant and fixed: both sides of the boundary agree on it, so no type
//! here may reorder its fields.

use vstd::prelude::*;
use crate::text::{cleaned_word, clean_word};

verus! {

/// How far a capacity is from satisfying `need`; the termination measure of
/// the growth policy.
pub open spec fn growth_gap(cap: nat, need: nat) -> nat {
    if cap >= need {
        0
    } else {
        (need - cap) as nat
    }
}

/// The geometric growth policy of the container: while the capacity is short
/// of `need`, it becomes twice itself plus three.
pub open spec fn grown_capacity(cap: nat, need: nat) -> nat
    decreases growth_gap(cap, need),
{
    if cap >= need {
        cap
    } else {
        grown_capacity(2 * cap + 3, need)
    }
}

/// The grown capacity satisfies the request and never shrinks.
pub proof fn lemma_grown_capacity_bounds(cap: nat, need: nat)
    ensures
        grown_capacity(cap, need) >= cap,
        grown_capacity(cap, need) >= need,
    decreases growth_gap(cap, need),
{
    if cap < need {
        lemma_grown_capacity_bounds(2 * cap + 3, need)
    }
}

/// Growing is idempotent: a capacity that already satisfies `need` is left
/// exactly as it is, so a second consecutive reservation of the same request
/// performs no reallocation.
pub proof fn lemma_grown_capacity_idempotent(cap: nat, need: nat)
    ensures
        grown_capacity(grown_capacity(cap, need), need) == grown_capacity(cap, need),
{
    lemma_grown_capacity_bounds(cap, need);
}

/// The capacity reached after `n` single-element appends, each one growing
/// the capacity only as far as the element it adds requires.
pub open spec fn appended_capacity(cap: nat, len: nat, n: nat) -> nat
    decreases n,
{
    if n == 0 {
        cap
    } else {
        appended_capacity(grown_capacity(cap, len + 1), len + 1, (n - 1) as nat)
    }
}

/// Appending never shrinks the capacity.
pub proof fn lemma_appended_capacity_grows(cap: nat, len: nat, n: nat)
    ensures
        appended_capacity(cap, len, n) >= cap,
    decreases n,
{
    if n > 0 {
        lemma_grown_capacity_bounds(cap, len + 1);
        lemma_appended_capacity_grows(grown_capacity(cap, len + 1), len + 1, (n - 1) as nat);
    }
}

/// The growable array of the interchange layer: a `length`, `capacity`,
/// `data` triple whose backing storage is an owned buffer. The raw form —
/// with `data` a bare pointer — exists only at the boundary itself; here the
/// buffer is a move-only owned handle, so the value can be consumed at most
/// once.
///
/// Invariant: `length <= capacity`, the buffer holds exactly the `length`
/// stored elements, and a capacity of zero means nothing was allocated.
pub struct Vector<T> {
    length: usize,
    capacity: usize,
    data: Vec<T>,
}

impl<T> View for Vector<T> {
    type V = Seq<T>;

    closed spec fn view(&self) -> Seq<T> {
        self.data@
    }
}

impl<T> Vector<T> {
    /// The element count.
    pub closed spec fn spec_length(&self) -> nat {
        self.length as nat
    }

    /// The allocated slot count.
    pub closed spec fn spec_capacity(&self) -> nat {
        self.capacity as nat
    }

    /// The container invariant.
    pub closed spec fn wf(&self) -> bool {
        &&& self.length <= self.capacity
        &&& self.data@.len() == self.length
    }

    /// The stored elements are the first `length` of the `capacity` slots.
    pub proof fn lemma_view_length(&self)
        requires
            self.wf(),
        ensures
            self@.len() == self.spec_length(),
            self.spec_length() <= self.spec_capacity(),
    {
    }

    /// Empty construction: no length, no capacity, nothing allocated.
    pub fn new() -> (r: Vector<T>)
        ensures
            r.wf(),
            r@ == Seq::<T>::empty(),
            r.spec_length() == 0,
            r.spec_capacity() == 0,
    {
        Vector { length: 0, capacity: 0, data: Vec::new() }
    }

    /// Bulk construction from existing elements: the capacity is exactly the
    /// element count and every element is stored, so reading the container
    /// back yields exactly the sequence given.
    pub fn from_bytes(v: Vec<T>) -> (r: Vector<T>)
        ensures
            r.wf(),
            r@ == v@,
            r.spec_length() == v@.len(),
            r.spec_capacity() == v@.len(),
    {
        let length = v.len();
        Vector { length, capacity: length, data: v }
    }

    /// The element count.
    pub fn len(&self) -> (r: usize)
        requires
            self.wf(),
        ensures
            r == self.spec_length(),
            r == self@.len(),
    {
        self.length
    }

    /// The allocated slot count.
    pub fn capacity(&self) -> (r: usize)
        ensures
            r == self.spec_capacity(),
    {
        self.capacity
    }

    /// Reads the element at `i`.
    pub fn get(&self, i: usize) -> (r: &T)
        requires
            self.wf(),
            i < self.spec_length(),
        ensures
            *r == self@[i as int],
    {
        &self.data[i]
    }

    /// The stored elements, in order.
    pub fn as_slice(&self) -> (r: &[T])
        ensures
            r@ == self@,
    {
        self.data.as_slice()
    }

    /// Ensures `capacity >= length + n` by the geometric growth policy. When
    /// the capacity already suffices, the container is left untouched — no
    /// reallocation at all.
    pub fn reserve(&mut self, n: usize)
        requires
            old(self).wf(),
            old(self).spec_length() + n <= usize::MAX,
            grown_capacity(old(self).spec_capacity(), old(self).spec_length() + n as nat) <= usize::MAX,
        ensures
            final(self).wf(),
            final(self)@ == old(self)@,
            final(self).spec_length() == old(self).spec_length(),
            final(self).spec_capacity() == grown_capacity(
                old(self).spec_capacity(),
                old(self).spec_length() + n as nat,
            ),
            final(self).spec_capacity() >= old(self).spec_length() + n as nat,
            old(self).spec_capacity() >= old(self).spec_length() + n ==> *final(self) == *old(
                self,
            ),
    {
        proof {
            lemma_grown_capacity_bounds(
                old(self).spec_capacity(),
                old(self).spec_length() + n as nat,
            );
        }
        let need = self.length + n;
        if self.capacity >= need {
            return ;
        }
        let ghost goal = grown_capacity(old(self).spec_capacity(), old(self).spec_length() + n as nat);
        let mut cap = self.capacity;
        while cap < need
            invariant
                need == old(self).spec_length() + n as nat,
                goal == grown_capacity(cap as nat, need as nat),
                goal <= usize::MAX,
            decreases growth_gap(cap as nat, need as nat),
        {
            proof {
                lemma_grown_capacity_bounds(2 * cap as nat + 3, need as nat);
            }
            cap = 2 * cap + 3;
        }
        // Grow the backing allocation to the new capacity.
        self.data.reserve(cap - self.length);
        self.capacity = cap;
    }

    /// Appends one element at offset `length`, growing first if needed:
    /// growth never disturbs the elements already stored.
    pub fn append(&mut self, item: T)
        requires
            old(self).wf(),
            old(self).spec_length() + 1 <= usize::MAX,
            grown_capacity(old(self).spec_capacity(), old(self).spec_length() + 1) <= usize::MAX,
        ensures
            final(self).wf(),
            final(self)@ == old(self)@.push(item),
            final(self).spec_length() == old(self).spec_length() + 1,
            final(self).spec_capacity() == grown_capacity(
                old(self).spec_capacity(),
                old(self).spec_length() + 1,
            ),
            final(self).spec_length() <= final(self).spec_capacity(),
    {
        self.reserve(1);
        self.data.push(item);
        self.length = self.length + 1;
    }

    /// Appends every element of `items` in order: afterwards the length has
    /// grown by exactly `items.len()`, the capacity satisfies it, and every
    /// previously stored element is unchanged.
    pub fn append_all(&mut self, items: Vec<T>)
        requires
            old(self).wf(),
            old(self).spec_length() + items@.len() <= usize::MAX,
            appended_capacity(
                old(self).spec_capacity(),
                old(self).spec_length(),
                items@.len(),
            ) <= usize::MAX,
        ensures
            final(self).wf(),
            final(self)@ == old(self)@ + items@,
            final(self).spec_length() == old(self).spec_length() + items@.len(),
            final(self).spec_capacity() == appended_capacity(
                old(self).spec_capacity(),
                old(self).spec_length(),
                items@.len(),
            ),
            final(self).spec_length() <= final(self).spec_capacity(),
    {
        let ghost goal = appended_capacity(
            old(self).spec_capacity(),
            old(self).spec_length(),
            items@.len(),
        );
        let ghost orig = items@;
        let n = items.len();
        let mut items = items;
        let mut i: usize = 0;
        while i < n
            invariant
                self.wf(),
                n == orig.len(),
                i <= n,
                items@ == orig.skip(i as int),
                self@ == old(self)@ + orig.take(i as int),
                self.spec_length() == old(self).spec_length() + i,
                old(self).spec_length() + n <= usize::MAX,
                goal == appended_capacity(self.spec_capacity(), self.spec_length(), (n - i) as nat),
                goal <= usize::MAX,
            decreases n - i,
        {
            let item = items.remove(0);
            proof {
                assert(item == orig[i as int]);
                assert(items@ =~= orig.skip(i as int + 1));
                lemma_grown_capacity_bounds(self.spec_capacity(), self.spec_length() + 1);
                lemma_appended_capacity_grows(
                    grown_capacity(self.spec_capacity(), self.spec_length() + 1),
                    self.spec_length() + 1,
                    (n - i - 1) as nat,
                );
            }
            self.append(item);
            i += 1;
            proof {
                assert(old(self)@ + orig.take(i as int) =~= self@);
            }
        }
        proof {
            assert(orig.take(n as int) =~= orig);
        }
    }

    /// Consumes the container and hands its buffer out, for the boundary
    /// call that needs the raw owned storage.
    pub fn into_vec(self) -> (r: Vec<T>)
        ensures
            r@ == self@,
    {
        let Vector { data, .. } = self;
        data
    }

    /// Reclaims the container. Ownership rules make a second reclamation of
    /// the same instance impossible: the value is consumed.
    pub fn destroy(self) {
    }
}

/// The audio sample-format tag. The boundary tag of each variant is its
/// declaration index — `s16` is 0, `s32` is 1, `flt` is 2 — and may never be
/// renumbered.
#[allow(non_camel_case_types)]
#[derive(Clone, Copy, PartialEq, Eq, Structural, Debug)]
pub enum SampleFormat {
    s16,
    s32,
    flt,
}

/// What parsing a sample-format name yields: the text is cleaned (white
/// space dropped, the rest lower-cased), one leading `s`, `u` or `i` and one
/// trailing `p` are stripped, and the remainder must read `16`, `32`, `flt`
/// or `float`.
pub open spec fn sample_format_spec(s: Seq<char>) -> Option<SampleFormat> {
    let n = cleaned_word(s);
    let n1 = if n.len() > 0 && (n[0] == 's' || n[0] == 'u' || n[0] == 'i') {
        n.skip(1)
    } else {
        n
    };
    let n2 = if n1.len() > 0 && n1.last() == 'p' {
        n1.drop_last()
    } else {
        n1
    };
    if n2 == seq!['1', '6'] {
        Some(SampleFormat::s16)
    } else if n2 == seq!['3', '2'] {
        Some(SampleFormat::s32)
    } else if n2 == seq!['f', 'l', 'o', 'a', 't'] || n2 == seq!['f', 'l', 't'] {
        Some(SampleFormat::flt)
    } else {
        None
    }
}

/// The boundary tag of a sample format: its declaration index.
pub open spec fn sample_format_tag(f: SampleFormat) -> u32 {
    match f {
        SampleFormat::s16 => 0,
        SampleFormat::s32 => 1,
        SampleFormat::flt => 2,
    }
}

impl SampleFormat {
    /// The fixed-width tag this variant carries across the boundary: its
    /// declaration index, permanently stable, never renumbered.
    pub fn tag(self) -> (r: u32)
        ensures
            r == sample_format_tag(self),
    {
        match self {
            SampleFormat::s16 => 0,
            SampleFormat::s32 => 1,
            SampleFormat::flt => 2,
        }
    }

    /// Parses a sample-format name, exactly as `sample_format_spec` states.
    pub fn from_str(s: &str) -> (r: Option<SampleFormat>)
        ensures
            r == sample_format_spec(s@),
    {
        let n = clean_word(s);
        let ghost n1 = if n@.len() > 0 && (n@[0] == 's' || n@[0] == 'u' || n@[0] == 'i') {
            n@.skip(1)
        } else {
            n@
        };
        let ghost n2 = if n1.len() > 0 && n1.last() == 'p' {
            n1.drop_last()
        } else {
            n1
        };
        let mut lo: usize = 0;
        let mut hi: usize = n.len();
        if hi > lo && (n[lo] == 's' || n[lo] == 'u' || n[lo] == 'i') {
            lo = lo + 1;
        }
        if hi > lo && n[hi - 1] == 'p' {
            hi = hi - 1;
        }
        proof {
            assert(n2 =~= n@.subrange(lo as int, hi as int));
        }
        let m = hi - lo;
        if m == 2 && n[lo] == '1' && n[lo + 1] == '6' {
            proof {
                assert(n2 =~= seq!['1', '6']);
            }
            Some(SampleFormat::s16)
        } else if m == 2 && n[lo] == '3' && n[lo + 1] == '2' {
            proof {
                assert(n2 =~= seq!['3', '2']);
            }
            Some(SampleFormat::s32)
        } else if m == 5 && n[lo] == 'f' && n[lo + 1] == 'l' && n[lo + 2] == 'o' && n[lo + 3]
            == 'a' && n[lo + 4] == 't' {
            proof {
                assert(n2 =~= seq!['f', 'l', 'o', 'a', 't']);
            }
            Some(SampleFormat::flt)
        } else if m == 3 && n[lo] == 'f' && n[lo + 1] == 'l' && n[lo + 2] == 't' {
            proof {
                assert(n2 =~= seq!['f', 'l', 't']);
            }
            Some(SampleFormat::flt)
        } else {
            proof {
                assert(n2 != seq!['1', '6'] && n2 != seq!['3', '2'] && n2 != seq!['f', 'l', 'o',
                    'a', 't'] && n2 != seq!['f', 'l', 't']) by {
                    assert(seq!['1', '6'].len() == 2 && seq!['3', '2'].len() == 2 && seq!['f', 'l',
                        'o', 'a', 't'].len() == 5 && seq!['f', 'l', 't'].len() == 3);
                }
            }
            None
        }
    }
}

/// The parameter record handed across the boundary: one instance gathers the
/// whole user configuration. Field order is part of the boundary contract.
///
/// The framerate is carried here as the validated decimal text of the flag;
/// the boundary copy of the record stores it as a double-precision number.
pub struct Parameters {
    pub expression: Vector<u8>,
    pub width: i32,
    pub height: i32,
    pub lossless: bool,
    pub fixed_fps: bool,
    pub fps: String,
    pub sample_rate: u64,
    pub sample_format: SampleFormat,
}

impl Parameters {
    /// The record invariant: its owned arrays are well formed.
    pub open spec fn wf(&self) -> bool {
        self.expression.wf()
    }

    /// Reclaims the record and every owned array field. Ownership rules make
    /// a second reclamation impossible: the value is consumed.
    pub fn destroy(self) {
        let Parameters { expression, .. } = self;
        expression.destroy();
    }
}

} // verus!
