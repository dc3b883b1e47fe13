//! In-memory decompression of a downloaded `.tar.gz` archive.
//!
//! The gzip layer is handled by flate2; the inner tar stream is parsed
//! here, against a byte-level specification of the format: a sequence of
//! 512-byte headers, each followed by its member's contents padded to a
//! block boundary, terminated by an all-zero block or the end of the
//! input.  Only regular-file members are retained; members of any other
//! type are skipped without aborting the decompression.

use vstd::prelude::*;
use crate::compress::gunzip_bytes;
use crate::compress::gunzip_of;

verus! {

use vstd::slice::slice_subrange;
use vstd::slice::slice_to_vec;

/// Why a downloaded archive could not be decompressed.
#[derive(Clone, Copy, Debug, PartialEq, Eq)]
pub enum DecodeError {
    /// The outer stream is not valid gzip.
    InvalidGzip,
    /// The decompressed stream is not a valid tar stream.
    InvalidTar,
}

// ---------------------------------------------------------------------
// Tar stream specification
// ---------------------------------------------------------------------

pub open spec fn spec_is_octal_digit(b: u8) -> bool {
    0x30 <= b <= 0x37
}

/// One step of reading a tar numeric field: leading spaces, then octal
/// digits, terminated by a NUL or space (or the end of the field).
/// Absurdly large values (that no block count could reach) are rejected.
pub open spec fn spec_parse_octal(s: Seq<u8>, i: int, seen: bool, acc: nat) -> Option<nat>
    decreases s.len() - i,
{
    if i < 0 || i >= s.len() {
        if seen {
            Some(acc)
        } else {
            None
        }
    } else if spec_is_octal_digit(s[i]) {
        if acc >= 0x2_0000_0000 {
            None
        } else {
            spec_parse_octal(s, i + 1, true, acc * 8 + (s[i] - 0x30) as nat)
        }
    } else if s[i] == 0x20 && !seen {
        spec_parse_octal(s, i + 1, false, 0)
    } else if (s[i] == 0 || s[i] == 0x20) && seen {
        Some(acc)
    } else {
        None
    }
}

/// The value of a tar octal field, or `None` when it is malformed.
pub open spec fn spec_octal_field(s: Seq<u8>) -> Option<nat> {
    spec_parse_octal(s, 0, false, 0)
}

/// Member contents are padded with zero bytes to a 512-byte boundary.
pub open spec fn spec_padded_size(size: nat) -> nat {
    size + ((512 - size % 512) % 512) as nat
}

pub open spec fn spec_zero_block(s: Seq<u8>) -> bool {
    forall|j: int| 0 <= j < s.len() ==> s[j] == 0
}

/// Index of the first NUL of `s`, or its length if it has none.
pub open spec fn spec_nul_pos(s: Seq<u8>) -> nat
    decreases s.len(),
{
    if s.len() == 0 {
        0
    } else if s[0] == 0 {
        0
    } else {
        1 + spec_nul_pos(s.drop_first())
    }
}

/// The bytes of `s` before its first NUL.
pub open spec fn spec_until_nul(s: Seq<u8>) -> Seq<u8> {
    s.take(spec_nul_pos(s) as int)
}

/// Whether a 512-byte header carries the POSIX ustar magic, in which
/// case its prefix field takes part in the member path.
pub open spec fn spec_posix_magic(h: Seq<u8>) -> bool {
    &&& h[257] == 0x75
    &&& h[258] == 0x73
    &&& h[259] == 0x74
    &&& h[260] == 0x61
    &&& h[261] == 0x72
    &&& h[262] == 0
}

/// The member path a 512-byte header declares: the name field, preceded
/// by the prefix field and a slash when a POSIX prefix is present.
pub open spec fn spec_header_path(h: Seq<u8>) -> Seq<u8> {
    let nm = spec_until_nul(h.subrange(0, 100));
    let pfx = spec_until_nul(h.subrange(345, 500));
    if spec_posix_magic(h) && pfx.len() > 0 {
        pfx + seq![0x2Fu8] + nm
    } else {
        nm
    }
}

/// One tar member: its declared path, its type flag, and its contents.
#[verifier::ext_equal]
pub struct TarItem {
    pub path: Seq<u8>,
    pub typeflag: u8,
    pub contents: Seq<u8>,
}

/// The members of the tar stream `data`, with `pending` carrying a GNU
/// long name declared for the next member, or `None` when the stream is
/// not valid.  A stream ends at an all-zero header block (whatever
/// follows it is ignored, as tar readers do) or at the end of the
/// input.  A long-name member ('L') names the member that follows it
/// and is not itself retained.
pub open spec fn spec_tar_items_from(data: Seq<u8>, pending: Option<Seq<u8>>) -> Option<
    Seq<TarItem>,
>
    decreases data.len(),
{
    if data.len() == 0 {
        Some(Seq::<TarItem>::empty())
    } else if data.len() < 512 {
        None
    } else if spec_zero_block(data.take(512)) {
        Some(Seq::<TarItem>::empty())
    } else {
        match spec_octal_field(data.subrange(124, 136)) {
            None => None,
            Some(size) => {
                let padded = spec_padded_size(size);
                if data.len() - 512 < padded {
                    None
                } else {
                    let contents = data.subrange(512, 512 + size as int);
                    if data[156] == 0x4C {
                        spec_tar_items_from(
                            data.skip(512 + padded as int),
                            Some(spec_until_nul(contents)),
                        )
                    } else {
                        let item = TarItem {
                            path: match pending {
                                Some(p) => p,
                                None => spec_header_path(data.take(512)),
                            },
                            typeflag: data[156],
                            contents: contents,
                        };
                        match spec_tar_items_from(data.skip(512 + padded as int), None) {
                            None => None,
                            Some(rest) => Some(seq![item] + rest),
                        }
                    }
                }
            },
        }
    }
}

/// The members of the tar stream `data`, or `None` when it is not a
/// valid stream.
pub open spec fn spec_tar_items(data: Seq<u8>) -> Option<Seq<TarItem>> {
    spec_tar_items_from(data, None)
}

/// Regular-file members: ordinary regular files ('0') and old-style
/// regular files (NUL).
pub open spec fn spec_is_regular(t: TarItem) -> bool {
    t.typeflag == 0 || t.typeflag == 0x30
}

/// What one retained archive entry holds.
#[verifier::ext_equal]
pub struct EntryView {
    pub path: Seq<u8>,
    pub contents: Seq<u8>,
}

/// [`spec_is_regular`] as a value, so every filter speaks of one
/// predicate.
pub open spec fn regular_item_pred() -> spec_fn(TarItem) -> bool {
    |t: TarItem| spec_is_regular(t)
}

/// The entry a retained tar member becomes.
pub open spec fn entry_of_item() -> spec_fn(TarItem) -> EntryView {
    |t: TarItem| EntryView { path: t.path, contents: t.contents }
}

/// The entries a valid tar stream decompresses to: its regular-file
/// members, in member order, paths taken verbatim.
pub open spec fn spec_regular_entries(items: Seq<TarItem>) -> Seq<EntryView> {
    items.filter(regular_item_pred()).map_values(entry_of_item())
}

// ---------------------------------------------------------------------
// Entry and Archive
// ---------------------------------------------------------------------

/// One file of a decompressed archive: its path inside the archive,
/// taken verbatim from the member header, and its contents.
#[derive(Debug)]
pub struct Entry {
    pub path: Vec<u8>,
    pub contents: Vec<u8>,
}

impl View for Entry {
    type V = EntryView;

    open spec fn view(&self) -> EntryView {
        EntryView { path: self.path@, contents: self.contents@ }
    }
}

/// Index of the last occurrence of `b` in `s`, if any.
pub open spec fn spec_last_index(s: Seq<u8>, b: u8) -> Option<int>
    decreases s.len(),
{
    if s.len() == 0 {
        None
    } else if s[s.len() - 1] == b {
        Some(s.len() - 1)
    } else {
        spec_last_index(s.drop_last(), b)
    }
}

/// The file-extension suffix of `path`: the bytes of its final
/// component after the last dot, unless that dot is absent or leads the
/// component.
pub open spec fn spec_extension_of(path: Seq<u8>) -> Option<Seq<u8>> {
    let fname = match spec_last_index(path, 0x2F) {
        Some(i) => path.skip(i + 1),
        None => path,
    };
    match spec_last_index(fname, 0x2E) {
        None => None,
        Some(d) => if d == 0 {
            None
        } else {
            Some(fname.skip(d + 1))
        },
    }
}

/// Whether an entry's path carries the shared-object suffix `so`.
pub open spec fn spec_is_shared_object(v: EntryView) -> bool {
    spec_extension_of(v.path) == Some(seq![0x73u8, 0x6Fu8])
}

/// [`spec_is_shared_object`] as a value, so every filter speaks of one
/// predicate.
pub open spec fn shared_object_pred() -> spec_fn(EntryView) -> bool {
    |v: EntryView| spec_is_shared_object(v)
}

proof fn lemma_last_index_at(s: Seq<u8>, b: u8, k: int)
    requires
        0 <= k < s.len(),
        s[k] == b,
        forall|j: int| k < j < s.len() ==> s[j] != b,
    ensures
        spec_last_index(s, b) == Some(k),
    decreases s.len(),
{
    if k == s.len() - 1 {
    } else {
        assert(forall|j: int| k < j < s.drop_last().len() ==> s.drop_last()[j] != b);
        lemma_last_index_at(s.drop_last(), b, k);
    }
}

proof fn lemma_last_index_none(s: Seq<u8>, b: u8)
    requires
        forall|j: int| 0 <= j < s.len() ==> s[j] != b,
    ensures
        spec_last_index(s, b) is None,
    decreases s.len(),
{
    if s.len() > 0 {
        lemma_last_index_none(s.drop_last(), b);
    }
}

/// Last occurrence of `b` in `s`, scanning from the end.
fn last_index_of(s: &[u8], b: u8) -> (r: Option<usize>)
    ensures
        match r {
            Some(k) => k < s@.len() && spec_last_index(s@, b) == Some(k as int),
            None => spec_last_index(s@, b) is None,
        },
{
    let mut i: usize = s.len();
    while i > 0
        invariant
            i <= s@.len(),
            forall|j: int| i <= j < s@.len() ==> s@[j] != b,
        decreases i,
    {
        if s[i - 1] == b {
            proof {
                lemma_last_index_at(s@, b, i - 1);
            }
            return Some(i - 1);
        }
        i = i - 1;
    }
    proof {
        lemma_last_index_none(s@, b);
    }
    None
}

impl Entry {
    /// The entry's file-extension suffix, if its path has one.
    pub fn extension(&self) -> (r: Option<Vec<u8>>)
        ensures
            match r {
                Some(v) => spec_extension_of(self@.path) == Some(v@),
                None => spec_extension_of(self@.path) is None,
            },
    {
        let path = self.path.as_slice();
        let plen = path.len();
        let fname: &[u8] = match last_index_of(path, 0x2F) {
            Some(i) => {
                let f = slice_subrange(path, i + 1, plen);
                proof {
                    assert(f@ =~= path@.skip(i + 1));
                }
                f
            },
            None => path,
        };
        let flen = fname.len();
        match last_index_of(fname, 0x2E) {
            None => None,
            Some(d) => {
                if d == 0 {
                    None
                } else {
                    let ext = slice_to_vec(slice_subrange(fname, d + 1, flen));
                    proof {
                        assert(ext@ =~= fname@.skip(d + 1));
                    }
                    Some(ext)
                }
            },
        }
    }

    /// Whether this entry is a compiled shared object.
    pub fn is_shared_object(&self) -> (r: bool)
        ensures
            r == spec_is_shared_object(self@),
    {
        match self.extension() {
            Some(ext) => {
                let r = ext.len() == 2 && ext[0] == 0x73 && ext[1] == 0x6F;
                proof {
                    if r {
                        assert(ext@ =~= seq![0x73u8, 0x6Fu8]);
                    } else {
                        assert(ext@ != seq![0x73u8, 0x6Fu8]);
                    }
                }
                r
            },
            None => false,
        }
    }
}

/// The ordered entries decompressed from one downloaded archive.
#[derive(Debug)]
pub struct Archive {
    pub entries: Vec<Entry>,
}

impl View for Archive {
    type V = Seq<EntryView>;

    open spec fn view(&self) -> Seq<EntryView> {
        self.entries@.map_values(|e: Entry| e@)
    }
}

impl Archive {
    /// All entries, in member order.
    pub fn all_entries(&self) -> (r: &Vec<Entry>)
        ensures
            r@.map_values(|e: Entry| e@) == self@,
    {
        &self.entries
    }

    /// The entries whose paths carry the shared-object suffix, in order.
    pub fn shared_objects(&self) -> (r: Vec<&Entry>)
        ensures
            r@.map_values(|e: &Entry| e@) == self@.filter(shared_object_pred()),
    {
        broadcast use vstd::seq_lib::group_filter_ensures;

        let mut out: Vec<&Entry> = Vec::new();
        let mut i: usize = 0;
        proof {
            assert(self@.take(0) =~= Seq::<EntryView>::empty());
            assert(Seq::<EntryView>::empty().filter(shared_object_pred())
                =~= Seq::<EntryView>::empty()) by {
                reveal(Seq::filter);
            }
            assert(out@.map_values(|e: &Entry| e@) =~= Seq::<EntryView>::empty());
        }
        while i < self.entries.len()
            invariant
                i <= self.entries@.len(),
                self@.len() == self.entries@.len(),
                out@.map_values(|e: &Entry| e@) == self@.take(i as int).filter(
                    shared_object_pred()),
            decreases self.entries@.len() - i,
        {
            let ghost prefix = self@.take(i as int);
            let e = &self.entries[i];
            if e.is_shared_object() {
                out.push(e);
            }
            proof {
                assert(self@.take(i + 1) =~= prefix.push(self@[i as int]));
                Seq::lemma_filter_push(prefix, self@[i as int], shared_object_pred());
                if spec_is_shared_object(self@[i as int]) {
                    assert(out@.map_values(|e: &Entry| e@) =~= prefix.filter(
                        shared_object_pred(),
                    ).push(self@[i as int]));
                } else {
                }
            }
            i = i + 1;
        }
        proof {
            assert(self@.take(self@.len() as int) =~= self@);
        }
        out
    }
}

// ---------------------------------------------------------------------
// Exec parsing
// ---------------------------------------------------------------------

/// Reads a tar numeric field, exactly as [`spec_octal_field`] does.
fn parse_octal_field(s: &[u8]) -> (r: Option<u64>)
    ensures
        match r {
            Some(v) => spec_octal_field(s@) == Some(v as nat) && v < 0x10_0000_0000,
            None => spec_octal_field(s@) is None,
        },
{
    let n = s.len();
    let mut i: usize = 0;
    let mut seen: bool = false;
    let mut acc: u64 = 0;
    while i < n
        invariant
            i <= n,
            n == s@.len(),
            acc < 0x10_0000_0000,
            spec_octal_field(s@) == spec_parse_octal(s@, i as int, seen, acc as nat),
        decreases n - i,
    {
        let b = s[i];
        if 0x30 <= b && b <= 0x37 {
            if acc >= 0x2_0000_0000 {
                return None;
            }
            acc = acc * 8 + (b - 0x30) as u64;
            seen = true;
        } else if b == 0x20 && !seen {
            acc = 0;
        } else if (b == 0 || b == 0x20) && seen {
            return Some(acc);
        } else {
            return None;
        }
        i = i + 1;
    }
    if seen {
        Some(acc)
    } else {
        None
    }
}

/// Whether all of `s` is zero bytes.
fn is_zero_block(s: &[u8]) -> (r: bool)
    ensures
        r == spec_zero_block(s@),
{
    let mut i: usize = 0;
    while i < s.len()
        invariant
            i <= s@.len(),
            forall|j: int| 0 <= j < i ==> s@[j] == 0,
        decreases s@.len() - i,
    {
        if s[i] != 0 {
            return false;
        }
        i = i + 1;
    }
    true
}

proof fn lemma_nul_pos_at(s: Seq<u8>, k: int)
    requires
        0 <= k <= s.len(),
        forall|j: int| 0 <= j < k ==> s[j] != 0,
        k == s.len() || s[k] == 0,
    ensures
        spec_nul_pos(s) == k,
    decreases s.len(),
{
    if s.len() == 0 || s[0] == 0 {
    } else {
        assert(forall|j: int| 0 <= j < k - 1 ==> s.drop_first()[j] != 0);
        lemma_nul_pos_at(s.drop_first(), k - 1);
    }
}

/// The bytes of `s` before its first NUL.
fn take_until_nul(s: &[u8]) -> (r: Vec<u8>)
    ensures
        r@ == spec_until_nul(s@),
{
    let mut k: usize = 0;
    while k < s.len() && s[k] != 0
        invariant
            k <= s@.len(),
            forall|j: int| 0 <= j < k ==> s@[j] != 0,
        decreases s@.len() - k,
    {
        k = k + 1;
    }
    proof {
        lemma_nul_pos_at(s@, k as int);
    }
    let r = slice_to_vec(slice_subrange(s, 0, k));
    proof {
        assert(r@ =~= spec_until_nul(s@));
    }
    r
}

/// The member path a 512-byte header declares.
fn header_path(h: &[u8]) -> (r: Vec<u8>)
    requires
        h@.len() == 512,
    ensures
        r@ == spec_header_path(h@),
{
    let name_field = slice_subrange(h, 0, 100);
    let nm = take_until_nul(name_field);
    let magic = h[257] == 0x75 && h[258] == 0x73 && h[259] == 0x74 && h[260] == 0x61 && h[261]
        == 0x72 && h[262] == 0;
    if magic {
        let prefix_field = slice_subrange(h, 345, 500);
        let pfx = take_until_nul(prefix_field);
        if pfx.len() > 0 {
            let mut out = pfx;
            out.push(0x2F);
            let mut tail = nm;
            out.append(&mut tail);
            proof {
                assert(out@ =~= spec_header_path(h@));
            }
            return out;
        }
    }
    proof {
        assert(nm@ =~= spec_header_path(h@));
    }
    nm
}

/// The view of a pending long name, if one is held.
pub open spec fn spec_opt_bytes(p: Option<Vec<u8>>) -> Option<Seq<u8>> {
    match p {
        Some(v) => Some(v@),
        None => None,
    }
}

/// `Some(done + rest)` when the remainder parses to `rest`, `None` when
/// it does not.
pub open spec fn opt_items_concat(done: Seq<TarItem>, rest: Option<Seq<TarItem>>) -> Option<
    Seq<TarItem>,
> {
    match rest {
        Some(r) => Some(done + r),
        None => None,
    }
}

proof fn lemma_opt_concat_empty(x: Option<Seq<TarItem>>)
    ensures
        opt_items_concat(Seq::<TarItem>::empty(), x) == x,
{
    match x {
        Some(r) => {
            assert(Seq::<TarItem>::empty() + r =~= r);
        },
        None => {},
    }
}

proof fn lemma_opt_concat_push(done: Seq<TarItem>, item: TarItem, x: Option<Seq<TarItem>>)
    ensures
        opt_items_concat(done, opt_items_concat(seq![item], x)) == opt_items_concat(
            done.push(item),
            x,
        ),
{
    match x {
        Some(r) => {
            assert(done + (seq![item] + r) =~= done.push(item) + r);
        },
        None => {},
    }
}

/// Decompresses a downloaded `.tar.gz` archive entirely in memory.
pub struct Unarchiver;

impl Unarchiver {
    /// Parses the decompressed tar stream, keeping its regular-file
    /// members in order.
    fn parse_entries(data: &[u8]) -> (r: Option<Vec<Entry>>)
        ensures
            match r {
                Some(es) => spec_tar_items(data@) matches Some(items) && es@.map_values(
                    |e: Entry| e@,
                ) == spec_regular_entries(items),
                None => spec_tar_items(data@) is None,
            },
    {
        broadcast use vstd::seq_lib::group_filter_ensures;

        let n = data.len();
        let mut pos: usize = 0;
        let mut entries: Vec<Entry> = Vec::new();
        let mut pending: Option<Vec<u8>> = None;
        let ghost mut done: Seq<TarItem> = Seq::<TarItem>::empty();
        proof {
            assert(data@.skip(0) =~= data@);
            lemma_opt_concat_empty(spec_tar_items(data@));
            assert(Seq::<TarItem>::empty().filter(regular_item_pred()) =~= Seq::<
                TarItem,
            >::empty()) by {
                reveal(Seq::filter);
            }
            assert(entries@.map_values(|e: Entry| e@) =~= spec_regular_entries(done));
        }
        loop
            invariant
                pos <= n,
                n == data@.len(),
                spec_tar_items(data@) == opt_items_concat(
                    done,
                    spec_tar_items_from(data@.skip(pos as int), spec_opt_bytes(pending)),
                ),
                entries@.map_values(|e: Entry| e@) == spec_regular_entries(done),
            ensures
                spec_tar_items(data@) == Some(done),
                entries@.map_values(|e: Entry| e@) == spec_regular_entries(done),
            decreases n - pos,
        {
            let ghost tail = data@.skip(pos as int);
            let ghost pv = spec_opt_bytes(pending);
            let remaining = n - pos;
            if remaining == 0 {
                proof {
                    assert(tail =~= Seq::<u8>::empty());
                    assert(spec_tar_items_from(tail, pv) == Some(Seq::<TarItem>::empty()));
                    assert(done + Seq::<TarItem>::empty() =~= done);
                }
                break;
            }
            if remaining < 512 {
                proof {
                    assert(spec_tar_items_from(tail, pv) is None);
                }
                return None;
            }
            let header = slice_subrange(data, pos, pos + 512);
            proof {
                assert(header@ =~= tail.take(512));
            }
            if is_zero_block(header) {
                proof {
                    assert(spec_tar_items_from(tail, pv) == Some(Seq::<TarItem>::empty()));
                    assert(done + Seq::<TarItem>::empty() =~= done);
                }
                break;
            }
            let size_field = slice_subrange(data, pos + 124, pos + 136);
            proof {
                assert(size_field@ =~= tail.subrange(124, 136));
            }
            let size: u64 = match parse_octal_field(size_field) {
                Some(v) => v,
                None => {
                    proof {
                        assert(spec_tar_items_from(tail, pv) is None);
                    }
                    return None;
                },
            };
            let padding: u64 = (512 - size % 512) % 512;
            let padded: u64 = size + padding;
            proof {
                assert(padded as nat == spec_padded_size(size as nat));
            }
            let after_header: u64 = (remaining - 512) as u64;
            if after_header < padded {
                proof {
                    assert(spec_tar_items_from(tail, pv) is None);
                }
                return None;
            }
            let size_u: usize = size as usize;
            let padded_u: usize = padded as usize;
            let contents = slice_to_vec(slice_subrange(data, pos + 512, pos + 512 + size_u));
            let typeflag = data[pos + 156];
            proof {
                assert(tail[156] == data@[pos + 156]);
                assert(contents@ =~= tail.subrange(512, 512 + size as int));
                assert(tail.skip(512 + padded as int) =~= data@.skip(pos + 512 + padded as int));
            }
            if typeflag == 0x4C {
                let long_name = take_until_nul(contents.as_slice());
                proof {
                    assert(spec_tar_items_from(tail, pv) == spec_tar_items_from(
                        tail.skip(512 + padded as int),
                        Some(spec_until_nul(contents@)),
                    ));
                }
                pending = Some(long_name);
            } else {
                let cur = pending;
                pending = None;
                let path = match cur {
                    Some(p) => p,
                    None => header_path(header),
                };
                let ghost item = TarItem {
                    path: match pv {
                        Some(p) => p,
                        None => spec_header_path(tail.take(512)),
                    },
                    typeflag: tail[156],
                    contents: tail.subrange(512, 512 + size as int),
                };
                proof {
                    assert(path@ == item.path);
                    assert(spec_tar_items_from(tail, pv) == opt_items_concat(
                        seq![item],
                        spec_tar_items_from(tail.skip(512 + padded as int), None),
                    ));
                }
                let ghost entries0 = entries@;
                if typeflag == 0 || typeflag == 0x30 {
                    let en = Entry { path, contents };
                    proof {
                        assert(en@ == entry_of_item()(item));
                    }
                    entries.push(en);
                    proof {
                        Seq::lemma_filter_push(done, item, regular_item_pred());
                        assert(regular_item_pred()(item));
                        assert(done.push(item).filter(regular_item_pred()) == done.filter(
                            regular_item_pred(),
                        ).push(item));
                        assert(spec_regular_entries(done.push(item)) =~= spec_regular_entries(
                            done,
                        ).push(entry_of_item()(item)));
                        assert(entries@.map_values(|e: Entry| e@) =~= entries0.map_values(
                            |e: Entry| e@,
                        ).push(en@));
                        assert(entries@.map_values(|e: Entry| e@) =~= spec_regular_entries(
                            done.push(item),
                        ));
                    }
                } else {
                    proof {
                        Seq::lemma_filter_push(done, item, regular_item_pred());
                        assert(!regular_item_pred()(item));
                        assert(spec_regular_entries(done.push(item)) =~= spec_regular_entries(
                            done,
                        ));
                        assert(entries@.map_values(|e: Entry| e@) =~= spec_regular_entries(
                            done.push(item),
                        ));
                    }
                }
                proof {
                    lemma_opt_concat_push(
                        done,
                        item,
                        spec_tar_items_from(tail.skip(512 + padded as int), None),
                    );
                    done = done.push(item);
                }
            }
            pos = pos + 512 + padded_u;
        }
        Some(entries)
    }

    /// Turns downloaded `.tar.gz` bytes into the archive's regular-file
    /// entries, in member order, entirely in memory.  Fails exactly when
    /// the outer stream is not gzip the decoder accepts, or the inner
    /// stream is not a valid tar stream.
    pub fn decompress_in_memory(tar_gz: &[u8]) -> (r: Result<Archive, DecodeError>)
        ensures
            match r {
                Ok(archive) => gunzip_of(tar_gz@) matches Some(t) && spec_tar_items(t)
                    matches Some(items) && archive@ == spec_regular_entries(items),
                Err(DecodeError::InvalidGzip) => gunzip_of(tar_gz@) is None,
                Err(DecodeError::InvalidTar) => gunzip_of(tar_gz@) matches Some(t)
                    && spec_tar_items(t) is None,
            },
    {
        let data = match gunzip_bytes(tar_gz) {
            Ok(v) => v,
            Err(_) => {
                return Err(DecodeError::InvalidGzip);
            },
        };
        match Self::parse_entries(data.as_slice()) {
            Some(entries) => Ok(Archive { entries }),
            None => Err(DecodeError::InvalidTar),
        }
    }
}

} // verus!
