use vstd::prelude::*;
use vstd::slice::slice_subrange;
use vstd::string::StringSliceAdditionalSpecFns;
use vstd::utf8::valid_utf8;

verus! {

#[verifier::external_type_specification]
#[verifier::external_body]
pub struct ExFmtError(core::fmt::Error);

/// Calls `core::str::from_utf8` and keeps the string on success.
///
/// Trusted: `from_utf8` succeeds exactly when the bytes are valid UTF-8, and
/// the string it returns is made of those very bytes.
#[verifier::external_body]
fn str_from_utf8(bytes: &[u8]) -> (text: Option<&str>)
    ensures
        text is Some <==> valid_utf8(bytes@),
        text matches Some(t) ==> t.spec_bytes() == bytes@,
{
    core::str::from_utf8(bytes).ok()
}

/// The first `capacity` bytes of `bytes`, or all of them when there are fewer.
pub open spec fn bounded_prefix(bytes: Seq<u8>, capacity: int) -> Seq<u8> {
    if bytes.len() <= capacity {
        bytes
    } else {
        bytes.subrange(0, capacity)
    }
}

/// The whole array of a buffer of `raw.len()` bytes after `text` is written
/// at `position`: what fits of `text` follows the first `position` bytes, and
/// the bytes after it are left as they were.
pub open spec fn written_array(raw: Seq<u8>, position: int, text: Seq<u8>) -> Seq<u8> {
    let kept = bounded_prefix(raw.subrange(0, position) + text, raw.len() as int);
    kept + raw.subrange(kept.len() as int, raw.len() as int)
}

/// A byte buffer of fixed capacity `N`, filled by successive writes.
///
/// Text that does not fit any more is dropped: the buffer holds the first
/// `N` bytes of all that was written to it.
pub struct FixedBuffer<const N: usize> {
    bytes: [u8; N],
    position: usize,
}

impl<const N: usize> FixedBuffer<N> {
    #[verifier::type_invariant]
    spec fn position_in_bounds(self) -> bool {
        self.position <= N
    }

    /// The bytes written so far.
    pub closed spec fn contents(self) -> Seq<u8> {
        self.bytes@.subrange(0, self.position as int)
    }

    /// The whole array of the buffer, written or not.
    pub closed spec fn raw(self) -> Seq<u8> {
        self.bytes@
    }

    /// Returns a new, empty buffer initialized with zeros.
    pub fn new() -> (buffer: Self)
        ensures
            buffer.contents() == Seq::<u8>::empty(),
            buffer.raw() == Seq::new(N as nat, |i: int| 0u8),
    {
        let buffer = Self { bytes: [0u8; N], position: 0 };
        assert(buffer.contents() =~= Seq::<u8>::empty());
        assert(buffer.raw() =~= Seq::new(N as nat, |i: int| 0u8));
        buffer
    }

    /// Returns the written portion of the buffer as a string slice, or the
    /// empty string when it is not valid UTF-8.
    pub fn as_str(&self) -> (text: &str)
        ensures
            text.spec_bytes() == (if valid_utf8(self.contents()) {
                self.contents()
            } else {
                Seq::<u8>::empty()
            }),
            self.contents().len() <= N,
    {
        proof {
            use_type_invariant(self);
        }
        let written = slice_subrange(self.bytes.as_slice(), 0, self.position);
        match str_from_utf8(written) {
            Some(text) => text,
            None => {
                proof {
                    reveal_strlit("");
                }
                ""
            },
        }
    }

    /// Appends as much of `s` as still fits. Always succeeds.
    pub fn write_str(&mut self, s: &str) -> (result: Result<(), core::fmt::Error>)
        ensures
            result is Ok,
            final(self).contents() == bounded_prefix(
                old(self).contents() + s.spec_bytes(),
                N as int,
            ),
            final(self).contents().len() <= N,
            final(self).raw().len() == N,
            forall|k: int|
                final(self).contents().len() <= k < N ==> #[trigger] final(self).raw()[k] == old(
                    self,
                ).raw()[k],
            final(self).raw() == written_array(
                old(self).raw(),
                old(self).contents().len() as int,
                s.spec_bytes(),
            ),
    {
        proof {
            use_type_invariant(&*self);
        }
        let bytes = s.as_bytes();
        let position = self.position;
        let remaining = N.saturating_sub(position);
        let to_copy = if bytes.len() <= remaining {
            bytes.len()
        } else {
            remaining
        };
        let mut buffer = self.bytes;
        let mut i: usize = 0;
        while i < to_copy
            invariant
                position + to_copy <= N,
                i <= to_copy,
                to_copy <= bytes@.len(),
                buffer@.len() == N,
                forall|k: int| 0 <= k < position ==> buffer@[k] == old(self).bytes@[k],
                forall|k: int| position + to_copy <= k < N ==> buffer@[k] == old(self).bytes@[k],
                forall|k: int| 0 <= k < i ==> buffer@[position + k] == bytes@[k],
            decreases to_copy - i,
        {
            buffer[position + i] = bytes[i];
            i += 1;
        }
        self.bytes = buffer;
        self.position = position + to_copy;
        proof {
            let before = old(self).contents();
            assert(self.contents() =~= bounded_prefix(before + s.spec_bytes(), N as int));
            assert(old(self).raw().subrange(0, position as int) == before);
            assert(self.raw() =~= written_array(old(self).raw(), position as int, s.spec_bytes()));
        }
        Ok(())
    }
}

/// Writing `first` and then `second` leaves the buffer as writing both at
/// once would: what is dropped for lack of room never comes back.
pub proof fn lemma_writes_compose(contents: Seq<u8>, first: Seq<u8>, second: Seq<u8>, capacity: int)
    requires
        0 <= capacity,
    ensures
        bounded_prefix(bounded_prefix(contents + first, capacity) + second, capacity)
            == bounded_prefix(contents + first + second, capacity),
        bounded_prefix(contents + first, capacity).len() <= capacity,
{
    let once = contents + first;
    let all = once + second;
    assert(contents + first + second =~= all);
    if once.len() <= capacity {
        assert(bounded_prefix(once, capacity) == once);
    } else {
        let kept = once.subrange(0, capacity);
        assert((kept + second).subrange(0, capacity) =~= all.subrange(0, capacity));
    }
}

/// Over the whole array too, writing `first` and then `second` gives the
/// buffer that writing both at once gives, and the written part ends where
/// the joined write ends.
pub proof fn lemma_array_writes_compose(raw: Seq<u8>, position: int, first: Seq<u8>, second: Seq<u8>)
    requires
        0 <= position <= raw.len(),
    ensures
        ({
            let after_first = bounded_prefix(raw.subrange(0, position) + first, raw.len() as int);
            &&& written_array(
                written_array(raw, position, first),
                after_first.len() as int,
                second,
            ) == written_array(raw, position, first + second)
            &&& bounded_prefix(after_first + second, raw.len() as int) == bounded_prefix(
                raw.subrange(0, position) + (first + second),
                raw.len() as int,
            )
        }),
{
    let cap = raw.len() as int;
    let prefix = raw.subrange(0, position);
    let after_first = bounded_prefix(prefix + first, cap);
    let once = written_array(raw, position, first);
    lemma_writes_compose(prefix, first, second, cap);
    assert(prefix + first + second =~= prefix + (first + second));
    assert(once.len() == cap);
    assert(once.subrange(0, after_first.len() as int) =~= after_first);
    let kept = bounded_prefix(after_first + second, cap);
    assert(once.subrange(kept.len() as int, cap) =~= raw.subrange(kept.len() as int, cap)) by {
        assert(kept.len() >= after_first.len());
    }
    assert(written_array(once, after_first.len() as int, second) =~= written_array(
        raw,
        position,
        first + second,
    ));
}

} // verus!
