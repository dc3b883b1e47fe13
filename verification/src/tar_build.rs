//! Serialization of tar streams, byte for byte.
//!
//! Every header is synthesized with fixed, deterministic metadata: mode
//! 0644 for files and 0755 for directories, uid and gid 0, mtime 0, GNU
//! magic, and a correct checksum.  Paths longer than the 100-byte name
//! field are emitted through a GNU long-name member.  Ancestor
//! directories of every file are emitted exactly once, in first-use
//! order.

use vstd::prelude::*;

verus! {

use vstd::slice::slice_subrange;
use vstd::slice::slice_to_vec;
use vstd::string::StrSliceExecFns;
use vstd::string::StringSliceAdditionalSpecFns;
use vstd::utf8::encode_utf8;

/// `n` copies of the byte `b`.
pub open spec fn spec_fill(n: nat, b: u8) -> Seq<u8> {
    Seq::new(n, |i: int| b)
}

/// `width` octal digits of `v`, most significant first (high digits of
/// a too-large value are dropped).
pub open spec fn spec_octal_digits(v: nat, width: nat) -> Seq<u8>
    decreases width,
{
    if width == 0 {
        Seq::<u8>::empty()
    } else {
        spec_octal_digits(v / 8, (width - 1) as nat).push((0x30 + v % 8) as u8)
    }
}

/// A 12-byte tar numeric field: 11 octal digits and a NUL.
pub open spec fn spec_octal_12(v: nat) -> Seq<u8> {
    spec_octal_digits(v, 11).push(0)
}

/// An 8-byte tar numeric field: 7 octal digits and a NUL.
pub open spec fn spec_octal_8(v: nat) -> Seq<u8> {
    spec_octal_digits(v, 7).push(0)
}


proof fn lemma_octal_digits_len(v: nat, width: nat)
    ensures
        spec_octal_digits(v, width).len() == width,
    decreases width,
{
    if width > 0 {
        lemma_octal_digits_len(v / 8, (width - 1) as nat);
    }
}

/// Sum of the bytes of `s`.
pub open spec fn spec_sum(s: Seq<u8>) -> nat
    decreases s.len(),
{
    if s.len() == 0 {
        0
    } else {
        spec_sum(s.drop_last()) + s.last() as nat
    }
}

/// A 512-byte header before its checksum is filled in: the checksum
/// field holds eight spaces, as the checksum definition asks.
pub open spec fn spec_header_pre(path: Seq<u8>, size: nat, typeflag: u8, mode: nat) -> Seq<u8> {
    path + spec_fill((100 - path.len()) as nat, 0)  // name
    + spec_octal_8(mode)  // mode
    + spec_octal_8(0)  // uid
    + spec_octal_8(0)  // gid
    + spec_octal_12(size)  // size
    + spec_octal_12(0)  // mtime
    + spec_fill(8, 0x20)  // checksum, blank while summing
    + seq![typeflag] + spec_fill(100, 0)  // linkname
    + seq![0x75u8, 0x73, 0x74, 0x61, 0x72, 0x20, 0x20, 0x00]  // GNU magic and version
    + spec_fill(247, 0)
}

/// A complete 512-byte header: the blank-checksum header with its byte
/// sum written into the checksum field as six octal digits, a NUL and a
/// space.
pub open spec fn spec_tar_header(path: Seq<u8>, size: nat, typeflag: u8, mode: nat) -> Seq<u8> {
    let pre = spec_header_pre(path, size, typeflag, mode);
    let ck = spec_sum(pre);
    pre.subrange(0, 148) + spec_octal_digits(ck, 6) + seq![0u8, 0x20] + pre.subrange(156, 512)
}

/// The zero bytes that pad contents of length `n` to a block boundary.
pub open spec fn spec_pad_len(n: nat) -> nat {
    ((512 - n % 512) % 512) as nat
}

/// One serialized member: its header, its contents, and the padding.  A
/// path too long for the name field is carried by a preceding GNU
/// long-name member, and the header keeps the path's first 100 bytes.
pub open spec fn spec_member(path: Seq<u8>, typeflag: u8, mode: nat, contents: Seq<u8>) -> Seq<
    u8,
> {
    if path.len() <= 100 {
        spec_tar_header(path, contents.len(), typeflag, mode) + contents + spec_fill(
            spec_pad_len(contents.len()),
            0,
        )
    } else {
        spec_tar_header(encode_utf8("././@LongLink"@), path.len() + 1, 0x4C, mode) + path + seq![
            0u8,
        ] + spec_fill(spec_pad_len(path.len() + 1), 0) + spec_tar_header(
            path.take(100),
            contents.len(),
            typeflag,
            mode,
        ) + contents + spec_fill(spec_pad_len(contents.len()), 0)
    }
}

// ---------------------------------------------------------------------
// Path components
// ---------------------------------------------------------------------

/// Number of bytes before the first slash of `s` (all of `s` if it has
/// none).
pub open spec fn first_comp_len(s: Seq<u8>) -> nat
    decreases s.len(),
{
    if s.len() == 0 {
        0
    } else if s[0] == 0x2F {
        0
    } else {
        1 + first_comp_len(s.drop_first())
    }
}

/// The normal components of a path: its slash-separated segments, with
/// empty, current-directory and parent-directory segments dropped.
pub open spec fn spec_components(s: Seq<u8>) -> Seq<Seq<u8>>
    decreases s.len(),
{
    if s.len() == 0 {
        Seq::<Seq<u8>>::empty()
    } else {
        let n = first_comp_len(s) as int;
        if n == 0 {
            spec_components(s.skip(1))
        } else {
            let seg = s.take(n);
            let rest = if n < s.len() {
                spec_components(s.skip(n + 1))
            } else {
                Seq::<Seq<u8>>::empty()
            };
            if seg == seq![0x2Eu8] || seg == seq![0x2Eu8, 0x2Eu8] {
                rest
            } else {
                seq![seg] + rest
            }
        }
    }
}

/// The directory path "./c0/c1/.../ck" that the component prefix
/// `comps` stands for.
pub open spec fn spec_join_dot(comps: Seq<Seq<u8>>) -> Seq<u8>
    decreases comps.len(),
{
    if comps.len() == 0 {
        seq![0x2Eu8]
    } else {
        spec_join_dot(comps.drop_last()) + seq![0x2Fu8] + comps.last()
    }
}

/// The directory paths of every component prefix, shortest first.
pub open spec fn spec_prefix_paths(comps: Seq<Seq<u8>>) -> Seq<Seq<u8>> {
    Seq::new(comps.len(), |k: int| spec_join_dot(comps.take(k + 1)))
}

// ---------------------------------------------------------------------
// The stream-building model
// ---------------------------------------------------------------------

/// Emits the directory members of `paths` that `dirs` does not hold
/// yet, in order, recording each; yields the directory set and the
/// stream afterwards.
pub open spec fn spec_add_missing_dirs(
    dirs: Seq<Seq<u8>>,
    stream: Seq<u8>,
    paths: Seq<Seq<u8>>,
) -> (Seq<Seq<u8>>, Seq<u8>)
    decreases paths.len(),
{
    if paths.len() == 0 {
        (dirs, stream)
    } else {
        let p = paths.first();
        if dirs.contains(p) {
            spec_add_missing_dirs(dirs, stream, paths.drop_first())
        } else {
            spec_add_missing_dirs(
                dirs.push(p),
                stream + spec_member(p, 0x35, 0o755, Seq::<u8>::empty()),
                paths.drop_first(),
            )
        }
    }
}

/// One file appended at `target`: the missing ancestor directories of
/// `target`, then the file member itself.
pub open spec fn spec_add_entry(
    dirs: Seq<Seq<u8>>,
    stream: Seq<u8>,
    target: Seq<u8>,
    contents: Seq<u8>,
) -> (Seq<Seq<u8>>, Seq<u8>) {
    let comps = spec_components(target);
    let ancestors = if comps.len() == 0 {
        Seq::<Seq<u8>>::empty()
    } else {
        spec_prefix_paths(comps.drop_last())
    };
    let st = spec_add_missing_dirs(dirs, stream, ancestors);
    (st.0, st.1 + spec_member(target, 0x30, 0o644, contents))
}

// ---------------------------------------------------------------------
// Exec helpers
// ---------------------------------------------------------------------

/// Appends all of `src` to `dst`.
pub fn push_bytes(dst: &mut Vec<u8>, src: &[u8])
    ensures
        final(dst)@ == old(dst)@ + src@,
{
    let mut i: usize = 0;
    while i < src.len()
        invariant
            i <= src@.len(),
            dst@ == old(dst)@ + src@.take(i as int),
        decreases src@.len() - i,
    {
        dst.push(src[i]);
        proof {
            assert(old(dst)@ + src@.take(i + 1) =~= (old(dst)@ + src@.take(i as int)).push(
                src@[i as int],
            ));
        }
        i = i + 1;
    }
    proof {
        assert(src@.take(src@.len() as int) =~= src@);
        assert(dst@ =~= old(dst)@ + src@);
    }
}

/// Appends `n` copies of `b` to `dst`.
fn push_fill(dst: &mut Vec<u8>, n: usize, b: u8)
    ensures
        final(dst)@ == old(dst)@ + spec_fill(n as nat, b),
{
    let mut i: usize = 0;
    while i < n
        invariant
            i <= n,
            dst@ == old(dst)@ + spec_fill(i as nat, b),
        decreases n - i,
    {
        dst.push(b);
        proof {
            assert(old(dst)@ + spec_fill((i + 1) as nat, b) =~= (old(dst)@ + spec_fill(
                i as nat,
                b,
            )).push(b));
        }
        i = i + 1;
    }
    proof {
        assert(dst@ =~= old(dst)@ + spec_fill(n as nat, b));
    }
}

/// Appends `width` octal digits of `v`, most significant first.
fn push_octal(dst: &mut Vec<u8>, v: u64, width: usize)
    ensures
        final(dst)@ == old(dst)@ + spec_octal_digits(v as nat, width as nat),
    decreases width,
{
    if width == 0 {
        proof {
            assert(old(dst)@ + spec_octal_digits(v as nat, 0) =~= old(dst)@);
        }
    } else {
        push_octal(dst, v / 8, width - 1);
        dst.push(0x30 + (v % 8) as u8);
    }
}

/// Sum of the bytes of `h`.
fn sum_bytes(h: &[u8]) -> (r: u64)
    requires
        h@.len() <= 4096,
    ensures
        r == spec_sum(h@),
{
    let mut acc: u64 = 0;
    let mut i: usize = 0;
    proof {
        assert(h@.take(0) =~= Seq::<u8>::empty());
    }
    while i < h.len()
        invariant
            i <= h@.len(),
            h@.len() <= 4096,
            acc == spec_sum(h@.take(i as int)),
            acc <= 255 * i,
        decreases h@.len() - i,
    {
        proof {
            assert(h@.take(i + 1).drop_last() =~= h@.take(i as int));
            assert(h@.take(i + 1).last() == h@[i as int]);
        }
        acc = acc + h[i] as u64;
        i = i + 1;
    }
    proof {
        assert(h@.take(h@.len() as int) =~= h@);
    }
    acc
}

/// Builds one complete 512-byte header.
fn tar_header(path: &[u8], size: u64, typeflag: u8, mode: u64) -> (h: Vec<u8>)
    requires
        path@.len() <= 100,
    ensures
        h@ == spec_tar_header(path@, size as nat, typeflag, mode as nat),
        h@.len() == 512,
{
    let mut pre: Vec<u8> = Vec::new();
    push_bytes(&mut pre, path);
    push_fill(&mut pre, 100 - path.len(), 0);
    push_octal(&mut pre, mode, 7);
    pre.push(0);
    push_octal(&mut pre, 0, 7);
    pre.push(0);
    push_octal(&mut pre, 0, 7);
    pre.push(0);
    push_octal(&mut pre, size, 11);
    pre.push(0);
    push_octal(&mut pre, 0, 11);
    pre.push(0);
    push_fill(&mut pre, 8, 0x20);
    pre.push(typeflag);
    push_fill(&mut pre, 100, 0);
    pre.push(0x75);
    pre.push(0x73);
    pre.push(0x74);
    pre.push(0x61);
    pre.push(0x72);
    pre.push(0x20);
    pre.push(0x20);
    pre.push(0x00);
    push_fill(&mut pre, 247, 0);
    proof {
        lemma_octal_digits_len(mode as nat, 7);
        lemma_octal_digits_len(0, 7);
        lemma_octal_digits_len(size as nat, 11);
        lemma_octal_digits_len(0, 11);
        assert(pre@ =~= spec_header_pre(path@, size as nat, typeflag, mode as nat));
        assert(pre@.len() == 512);
    }
    let ck = sum_bytes(pre.as_slice());
    let mut field: Vec<u8> = Vec::new();
    push_octal(&mut field, ck, 6);
    field.push(0);
    field.push(0x20);
    proof {
        lemma_octal_digits_len(ck as nat, 6);
        assert(field@ =~= spec_octal_digits(spec_sum(pre@), 6) + seq![0u8, 0x20u8]);
    }
    let ghost pre0 = pre@;
    let mut k: usize = 0;
    while k < 8
        invariant
            k <= 8,
            pre@.len() == 512,
            field@.len() == 8,
            field@ == spec_octal_digits(spec_sum(pre0), 6) + seq![0u8, 0x20u8],
            forall|j: int| 0 <= j < 148 ==> pre@[j] == pre0[j],
            forall|j: int| 156 <= j < 512 ==> pre@[j] == pre0[j],
            forall|j: int| 0 <= j < k ==> pre@[148 + j] == field@[j],
        decreases 8 - k,
    {
        let b = field[k];
        pre[148 + k] = b;
        k = k + 1;
    }
    proof {
        lemma_octal_digits_len(spec_sum(pre0), 6);
        assert(pre@ =~= pre0.subrange(0, 148) + (spec_octal_digits(spec_sum(pre0), 6) + seq![
            0u8,
            0x20u8,
        ]) + pre0.subrange(156, 512));
        assert(pre@ =~= spec_tar_header(path@, size as nat, typeflag, mode as nat));
    }
    pre
}

/// The padding that brings contents of length `n` to a block boundary.
fn pad_for(n: usize) -> (r: usize)
    ensures
        r as nat == spec_pad_len(n as nat),
{
    (512 - n % 512) % 512
}

/// Appends one serialized member, emitting a GNU long-name member first
/// when the path does not fit the name field.
fn append_member(out: &mut Vec<u8>, path: &[u8], typeflag: u8, mode: u64, contents: &[u8])
    ensures
        final(out)@ == old(out)@ + spec_member(path@, typeflag, mode as nat, contents@),
{
    if path.len() <= 100 {
        let h = tar_header(path, contents.len() as u64, typeflag, mode);
        push_bytes(out, h.as_slice());
        push_bytes(out, contents);
        push_fill(out, pad_for(contents.len()), 0);
        proof {
            assert(out@ =~= old(out)@ + spec_member(path@, typeflag, mode as nat, contents@));
        }
    } else {
        let ll: &str = "././@LongLink";
        proof {
            reveal_strlit("././@LongLink");
            vstd::string::is_ascii_spec_bytes(ll);
            assert(ll.spec_bytes() =~= encode_utf8("././@LongLink"@));
            assert(ll.spec_bytes().len() <= 100);
        }
        let mut lldata = slice_to_vec(path);
        lldata.push(0);
        proof {
            assert(lldata@ =~= path@ + seq![0u8]);
        }
        let lh = tar_header(ll.as_bytes(), lldata.len() as u64, 0x4C, mode);
        push_bytes(out, lh.as_slice());
        push_bytes(out, lldata.as_slice());
        push_fill(out, pad_for(lldata.len()), 0);
        let name = slice_subrange(path, 0, 100);
        let h = tar_header(name, contents.len() as u64, typeflag, mode);
        push_bytes(out, h.as_slice());
        push_bytes(out, contents);
        push_fill(out, pad_for(contents.len()), 0);
        proof {
            assert(name@ =~= path@.take(100));
            assert(out@ =~= old(out)@ + spec_member(path@, typeflag, mode as nat, contents@));
        }
    }
}


proof fn lemma_comp_len_at(s: Seq<u8>, k: int)
    requires
        0 <= k <= s.len(),
        forall|j: int| 0 <= j < k ==> s[j] != 0x2F,
        k == s.len() || s[k] == 0x2F,
    ensures
        first_comp_len(s) == k,
    decreases s.len(),
{
    if s.len() == 0 || s[0] == 0x2F {
    } else {
        assert(forall|j: int| 0 <= j < k - 1 ==> s.drop_first()[j] != 0x2F);
        lemma_comp_len_at(s.drop_first(), k - 1);
    }
}

/// Splits a path into its normal components.
fn split_components(p: &[u8]) -> (r: Vec<Vec<u8>>)
    ensures
        r@.map_values(|c: Vec<u8>| c@) == spec_components(p@),
{
    let n = p.len();
    let mut out: Vec<Vec<u8>> = Vec::new();
    let mut pos: usize = 0;
    proof {
        assert(p@.skip(0) =~= p@);
        assert(out@.map_values(|c: Vec<u8>| c@) =~= Seq::<Seq<u8>>::empty());
    }
    while pos < n
        invariant
            pos <= n,
            n == p@.len(),
            out@.map_values(|c: Vec<u8>| c@) + spec_components(p@.skip(pos as int))
                =~= spec_components(p@),
        decreases n - pos,
    {
        let ghost tail = p@.skip(pos as int);
        let mut end: usize = pos;
        while end < n && p[end] != 0x2F
            invariant
                pos <= end <= n,
                n == p@.len(),
                forall|j: int| pos <= j < end ==> p@[j] != 0x2F,
            decreases n - end,
        {
            end = end + 1;
        }
        proof {
            assert(forall|j: int| 0 <= j < end - pos ==> tail[j] != 0x2F);
            assert(end - pos == tail.len() || tail[end - pos] == 0x2F);
            lemma_comp_len_at(tail, end - pos);
        }
        if end > pos {
            let seg = slice_to_vec(slice_subrange(p, pos, end));
            proof {
                assert(seg@ =~= tail.take(end - pos));
            }
            let is_dot = seg.len() == 1 && seg[0] == 0x2E;
            let is_dotdot = seg.len() == 2 && seg[0] == 0x2E && seg[1] == 0x2E;
            proof {
                if is_dot {
                    assert(seg@ =~= seq![0x2Eu8]);
                } else {
                    assert(seg@ != seq![0x2Eu8]);
                }
                if is_dotdot {
                    assert(seg@ =~= seq![0x2Eu8, 0x2Eu8]);
                } else {
                    assert(seg@ != seq![0x2Eu8, 0x2Eu8]);
                }
            }
            let ghost out0 = out@.map_values(|c: Vec<u8>| c@);
            if !is_dot && !is_dotdot {
                out.push(seg);
                proof {
                    assert(out@.map_values(|c: Vec<u8>| c@) =~= out0.push(tail.take(end - pos)));
                }
            }
            proof {
                if end < n {
                    assert(tail.skip(end - pos + 1) =~= p@.skip(end + 1));
                }
                if !(tail.take(end - pos) == seq![0x2Eu8] || tail.take(end - pos) == seq![
                    0x2Eu8,
                    0x2Eu8,
                ]) {
                    assert(out0.push(tail.take(end - pos)) + spec_components(tail).skip(1)
                        =~= out0 + spec_components(tail) || true);
                }
            }
        } else {
            proof {
                assert(tail.skip(1) =~= p@.skip(pos + 1));
            }
        }
        pos = if end < n {
            end + 1
        } else {
            end
        };
        proof {
            if pos == n {
                assert(p@.skip(n as int) =~= Seq::<u8>::empty());
            }
            assert(out@.map_values(|c: Vec<u8>| c@) + spec_components(p@.skip(pos as int))
                =~= spec_components(p@));
        }
    }
    proof {
        assert(p@.skip(n as int) =~= Seq::<u8>::empty());
        assert(out@.map_values(|c: Vec<u8>| c@) =~= spec_components(p@));
    }
    out
}

/// A complete tar stream holding one file member and the terminator.
pub(crate) fn tar_single(name: &[u8], contents: &[u8]) -> (r: Vec<u8>)
    ensures
        r@ == spec_member(name@, 0x30, 0o644, contents@) + spec_fill(1024, 0),
{
    let mut out: Vec<u8> = Vec::new();
    append_member(&mut out, name, 0x30, 0o644, contents);
    push_fill(&mut out, 1024, 0);
    proof {
        assert(out@ =~= spec_member(name@, 0x30, 0o644, contents@) + spec_fill(1024, 0));
    }
    out
}

// ---------------------------------------------------------------------
// TarArchive
// ---------------------------------------------------------------------

/// An in-memory tar stream under construction, tracking which directory
/// members it has emitted.
pub struct TarArchive {
    directories_created: Vec<Vec<u8>>,
    data: Vec<u8>,
}

impl TarArchive {
    /// The directory members emitted so far, in emission order.
    pub closed spec fn dirs(&self) -> Seq<Seq<u8>> {
        self.directories_created@.map_values(|d: Vec<u8>| d@)
    }

    /// The serialized stream so far.
    pub closed spec fn stream(&self) -> Seq<u8> {
        self.data@
    }

    /// An empty stream with no directories recorded.
    pub fn new() -> (t: TarArchive)
        ensures
            t.dirs() =~= Seq::<Seq<u8>>::empty(),
            t.stream() =~= Seq::<u8>::empty(),
    {
        let t = TarArchive { directories_created: Vec::new(), data: Vec::new() };
        proof {
            assert(t.dirs() =~= Seq::<Seq<u8>>::empty());
        }
        t
    }

    /// Whether a directory member for `path` was already emitted.
    fn has_directory(&self, path: &Vec<u8>) -> (r: bool)
        ensures
            r == self.dirs().contains(path@),
    {
        let mut i: usize = 0;
        while i < self.directories_created.len()
            invariant
                i <= self.dirs().len(),
                self.dirs().len() == self.directories_created@.len(),
                forall|j: int| 0 <= j < i ==> self.dirs()[j] != path@,
            decreases self.directories_created@.len() - i,
        {
            if crate::util::bytes_eq(self.directories_created[i].as_slice(), path.as_slice()) {
                proof {
                    assert(self.dirs()[i as int] == path@);
                }
                return true;
            }
            i = i + 1;
        }
        proof {
            if self.dirs().contains(path@) {
                let k = choose|k: int| 0 <= k < self.dirs().len() && self.dirs()[k] == path@;
                assert(self.dirs()[k] != path@);
            }
        }
        false
    }

    /// Emits one directory member with deterministic metadata.
    fn add_directory(&mut self, path: &Vec<u8>)
        ensures
            final(self).stream() == old(self).stream() + spec_member(
                path@,
                0x35,
                0o755,
                Seq::<u8>::empty(),
            ),
            final(self).dirs() == old(self).dirs(),
    {
        let empty: Vec<u8> = Vec::new();
        append_member(&mut self.data, path.as_slice(), 0x35, 0o755, empty.as_slice());
    }

    /// Emits the not-yet-recorded directories named by the first `upto`
    /// component prefixes of `comps`, in order, recording each.
    fn populate_ancestor_paths(&mut self, comps: &Vec<Vec<u8>>, upto: usize)
        requires
            upto <= comps@.len(),
        ensures
            (final(self).dirs(), final(self).stream()) == spec_add_missing_dirs(
                old(self).dirs(),
                old(self).stream(),
                spec_prefix_paths(comps@.map_values(|c: Vec<u8>| c@).take(upto as int)),
            ),
    {
        let ghost comps_v = comps@.map_values(|c: Vec<u8>| c@);
        let ghost paths = spec_prefix_paths(comps_v.take(upto as int));
        let mut dir: Vec<u8> = Vec::new();
        dir.push(0x2E);
        proof {
            assert(comps_v.take(0) =~= Seq::<Seq<u8>>::empty());
            assert(dir@ =~= spec_join_dot(comps_v.take(0)));
            assert(paths.take(0) =~= Seq::<Seq<u8>>::empty());
        }
        let mut k: usize = 0;
        while k < upto
            invariant
                k <= upto,
                upto <= comps@.len(),
                comps_v == comps@.map_values(|c: Vec<u8>| c@),
                paths == spec_prefix_paths(comps_v.take(upto as int)),
                dir@ == spec_join_dot(comps_v.take(k as int)),
                (self.dirs(), self.stream()) == spec_add_missing_dirs(
                    old(self).dirs(),
                    old(self).stream(),
                    paths.take(k as int),
                ),
            decreases upto - k,
        {
            let ghost st_k = (self.dirs(), self.stream());
            dir.push(0x2F);
            push_bytes(&mut dir, comps[k].as_slice());
            proof {
                assert(comps_v.take(k + 1).drop_last() =~= comps_v.take(k as int));
                assert(comps_v.take(k + 1).last() == comps_v[k as int]);
                assert(comps@[k as int]@ == comps_v[k as int]);
                assert(dir@ =~= spec_join_dot(comps_v.take(k + 1)));
                assert(comps_v.take(upto as int).take(k + 1) =~= comps_v.take(k + 1));
                assert(paths[k as int] == spec_join_dot(comps_v.take(k + 1)));
            }
            if !self.has_directory(&dir) {
                self.add_directory(&dir);
                let rec = slice_to_vec(dir.as_slice());
                self.directories_created.push(rec);
                proof {
                    assert(self.dirs() =~= st_k.0.push(dir@));
                }
            }
            proof {
                assert(paths.take(k + 1) =~= paths.take(k as int).push(paths[k as int]));
                lemma_add_missing_dirs_push(
                    old(self).dirs(),
                    old(self).stream(),
                    paths.take(k as int),
                    paths[k as int],
                );
            }
            k = k + 1;
        }
        proof {
            assert(paths.take(upto as int) =~= paths);
        }
    }

    /// Appends one file entry at `target`, creating each missing
    /// ancestor directory member first.
    pub fn add_entry(&mut self, entry: &crate::unarchiver::Entry, target: &[u8])
        ensures
            (final(self).dirs(), final(self).stream()) == spec_add_entry(
                old(self).dirs(),
                old(self).stream(),
                target@,
                entry@.contents,
            ),
    {
        let comps = split_components(target);
        let ghost comps_v = comps@.map_values(|c: Vec<u8>| c@);
        let n = comps.len();
        let upto = if n == 0 {
            0
        } else {
            n - 1
        };
        proof {
            if n == 0 {
                assert(comps_v.take(0) =~= Seq::<Seq<u8>>::empty());
                assert(spec_prefix_paths(comps_v.take(0)) =~= Seq::<Seq<u8>>::empty());
            } else {
                assert(comps_v.take(n - 1) =~= spec_components(target@).drop_last());
            }
        }
        self.populate_ancestor_paths(&comps, upto);
        append_member(&mut self.data, target, 0x30, 0o644, entry.contents.as_slice());
    }

    /// Finishes the stream: the members so far followed by the two
    /// terminating zero blocks.
    pub fn into_bytes(self) -> (r: Vec<u8>)
        ensures
            r@ == self.stream() + spec_fill(1024, 0),
    {
        let mut data = self.data;
        push_fill(&mut data, 1024, 0);
        data
    }
}

proof fn lemma_add_missing_dirs_push(
    dirs: Seq<Seq<u8>>,
    stream: Seq<u8>,
    paths: Seq<Seq<u8>>,
    p: Seq<u8>,
)
    ensures
        spec_add_missing_dirs(dirs, stream, paths.push(p)) == ({
            let st = spec_add_missing_dirs(dirs, stream, paths);
            if st.0.contains(p) {
                st
            } else {
                (st.0.push(p), st.1 + spec_member(p, 0x35, 0o755, Seq::<u8>::empty()))
            }
        }),
    decreases paths.len(),
{
    if paths.len() == 0 {
        assert(paths.push(p).first() == p);
        assert(paths.push(p).drop_first() =~= Seq::<Seq<u8>>::empty());
        assert(spec_add_missing_dirs(dirs, stream, paths) == (dirs, stream));
        if dirs.contains(p) {
            assert(spec_add_missing_dirs(dirs, stream, paths.push(p)) == spec_add_missing_dirs(
                dirs,
                stream,
                Seq::<Seq<u8>>::empty(),
            ));
        } else {
            assert(spec_add_missing_dirs(dirs, stream, paths.push(p)) == spec_add_missing_dirs(
                dirs.push(p),
                stream + spec_member(p, 0x35, 0o755, Seq::<u8>::empty()),
                Seq::<Seq<u8>>::empty(),
            ));
        }
    } else {
        assert(paths.push(p).first() == paths.first());
        assert(paths.push(p).drop_first() =~= paths.drop_first().push(p));
        if dirs.contains(paths.first()) {
            lemma_add_missing_dirs_push(dirs, stream, paths.drop_first(), p);
        } else {
            lemma_add_missing_dirs_push(
                dirs.push(paths.first()),
                stream + spec_member(paths.first(), 0x35, 0o755, Seq::<u8>::empty()),
                paths.drop_first(),
                p,
            );
        }
    }
}

} // verus!
