//! Serialization of `ar` archives, the outer layer of a Debian binary
//! package.
//!
//! Every member header carries fixed metadata: mtime 0, uid and gid 0,
//! mode 644, and the exact decimal byte length of its payload.  A
//! payload of odd length is followed by one newline of padding, as the
//! format asks.

use vstd::prelude::*;
use crate::tar_build::push_bytes;
use crate::tar_build::spec_fill;

verus! {

use vstd::string::StrSliceExecFns;
use vstd::string::StringSliceAdditionalSpecFns;
use vstd::utf8::encode_utf8;

/// Decimal digits of `v`, most significant first, without leading
/// zeros.
pub open spec fn spec_dec_digits(v: nat) -> Seq<u8>
    decreases v,
{
    if v < 10 {
        seq![(0x30 + v) as u8]
    } else {
        spec_dec_digits(v / 10).push((0x30 + v % 10) as u8)
    }
}

/// Ten to the `w`th.
pub open spec fn spec_pow10(w: nat) -> nat
    decreases w,
{
    if w == 0 {
        1
    } else {
        10 * spec_pow10((w - 1) as nat)
    }
}

proof fn lemma_dec_digits_len(v: nat, w: nat)
    requires
        w >= 1,
        v < spec_pow10(w),
    ensures
        1 <= spec_dec_digits(v).len() <= w,
    decreases w,
{
    if v >= 10 {
        assert(spec_pow10(w) == 10 * spec_pow10((w - 1) as nat));
        assert(v / 10 < spec_pow10((w - 1) as nat)) by (nonlinear_arith)
            requires
                v < 10 * spec_pow10((w - 1) as nat),
        ;
        lemma_dec_digits_len(v / 10, (w - 1) as nat);
    }
}

/// A fixed-width ar header field: `s` padded with spaces to `width`.
pub open spec fn spec_pad_field(s: Seq<u8>, width: nat) -> Seq<u8> {
    if s.len() <= width {
        s + spec_fill((width - s.len()) as nat, 0x20)
    } else {
        s
    }
}

/// The 8-byte global header every ar archive starts with.
pub open spec fn spec_ar_magic() -> Seq<u8> {
    encode_utf8("!<arch>\n"@)
}

/// One ar member: a 60-byte header (the name, mtime 0, uid 0, gid 0,
/// mode 644, and the payload's decimal byte length, each space-padded,
/// then the terminator), the payload itself, and one newline of padding
/// when the payload's length is odd.
pub open spec fn spec_ar_member(name: Seq<u8>, data: Seq<u8>) -> Seq<u8> {
    spec_pad_field(name, 16) + spec_pad_field(seq![0x30u8], 12)  // mtime
    + spec_pad_field(seq![0x30u8], 6)  // uid
    + spec_pad_field(seq![0x30u8], 6)  // gid
    + spec_pad_field(seq![0x36u8, 0x34, 0x34], 8)  // mode, octal
    + spec_pad_field(spec_dec_digits(data.len()), 10)  // size
    + seq![0x60u8, 0x0Au8] + data + (if data.len() % 2 == 1 {
        seq![0x0Au8]
    } else {
        Seq::<u8>::empty()
    })
}

/// Appends the decimal digits of `v`.
fn push_dec(dst: &mut Vec<u8>, v: u64)
    ensures
        final(dst)@ == old(dst)@ + spec_dec_digits(v as nat),
    decreases v,
{
    if v < 10 {
        dst.push(0x30 + v as u8);
        proof {
            assert(old(dst)@ + spec_dec_digits(v as nat) =~= old(dst)@.push((0x30 + v) as u8));
        }
    } else {
        push_dec(dst, v / 10);
        dst.push(0x30 + (v % 10) as u8);
    }
}

/// A `.deb` (ar) archive under construction, held in memory.
pub struct DebPackage {
    data: Vec<u8>,
}

impl DebPackage {
    /// The serialized archive so far.
    pub closed spec fn stream(&self) -> Seq<u8> {
        self.data@
    }

    /// A fresh archive: just the global header.
    pub fn new() -> (p: DebPackage)
        ensures
            p.stream() == spec_ar_magic(),
    {
        let magic: &str = "!<arch>\n";
        let mut data: Vec<u8> = Vec::new();
        push_bytes(&mut data, magic.as_bytes());
        proof {
            assert(data@ =~= spec_ar_magic());
        }
        DebPackage { data }
    }

    /// Appends one member with deterministic header metadata.
    #[verifier::rlimit(60)]
    pub fn add_file(&mut self, name: &[u8], data: &[u8])
        requires
            name@.len() <= 16,
            data@.len() < 10_000_000_000,
        ensures
            final(self).stream() == old(self).stream() + spec_ar_member(name@, data@),
    {
        push_bytes(&mut self.data, name);
        push_fill_sp(&mut self.data, 16 - name.len());
        self.data.push(0x30);
        push_fill_sp(&mut self.data, 11);
        self.data.push(0x30);
        push_fill_sp(&mut self.data, 5);
        self.data.push(0x30);
        push_fill_sp(&mut self.data, 5);
        self.data.push(0x36);
        self.data.push(0x34);
        self.data.push(0x34);
        push_fill_sp(&mut self.data, 5);
        let mut size_field: Vec<u8> = Vec::new();
        push_dec(&mut size_field, data.len() as u64);
        proof {
            assert(spec_pow10(10) == 10_000_000_000) by {
                reveal_with_fuel(spec_pow10, 11);
            }
            lemma_dec_digits_len(data@.len(), 10);
        }
        push_bytes(&mut self.data, size_field.as_slice());
        push_fill_sp(&mut self.data, 10 - size_field.len());
        self.data.push(0x60);
        self.data.push(0x0A);
        push_bytes(&mut self.data, data);
        if data.len() % 2 == 1 {
            self.data.push(0x0A);
        }
        proof {
            assert(self.data@ =~= old(self).stream() + spec_ar_member(name@, data@));
        }
    }

    /// The finished archive bytes.
    pub fn into_bytes(self) -> (r: Vec<u8>)
        ensures
            r@ == self.stream(),
    {
        self.data
    }
}

/// Appends `n` spaces.
fn push_fill_sp(dst: &mut Vec<u8>, n: usize)
    ensures
        final(dst)@ == old(dst)@ + spec_fill(n as nat, 0x20),
{
    let mut i: usize = 0;
    while i < n
        invariant
            i <= n,
            dst@ == old(dst)@ + spec_fill(i as nat, 0x20),
        decreases n - i,
    {
        dst.push(0x20);
        proof {
            assert(old(dst)@ + spec_fill((i + 1) as nat, 0x20) =~= (old(dst)@ + spec_fill(
                i as nat,
                0x20,
            )).push(0x20));
        }
        i = i + 1;
    }
    proof {
        assert(dst@ =~= old(dst)@ + spec_fill(n as nat, 0x20));
    }
}

} // verus!
