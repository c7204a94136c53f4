//! The web server's decisions on a request: which virtual host it is for,
//! whether its address is blocked, whether it is a hotlink or trips the
//! application firewall, whether a redirect applies, and which file under
//! the document root answers it; also the content types and the reading of
//! a CGI script's output.
use vstd::prelude::*;
use crate::files::{components, components_of};
use crate::patterns::{compile, is_match, pattern_compiles, pattern_matches, Pattern};
use crate::provision::{join, join_path, HotlinkCfg, RedirectEntry, SecurityProvision, Vhost, WafCfg};
use crate::text::{
    chars_eq, chars_of, contains_char, last_index_of, lemma_last_index_of, rfind_char, slice_vec,
    split_char, split_on, string_of, to_lowercase, trim, trim_chars, trim_end_char, unicode_lower,
    dec, dec_u64,
};

verus! {

// ================================================================ file types

/// `Path::file_name`: the last component, unless the path ends in a root,
/// a leading `.`, or `..`.
pub open spec fn file_name_spec(p: Seq<char>) -> Option<Seq<char>> {
    let cs = components(p);
    if cs.len() > 0 && cs.last() != seq!['/'] && cs.last() != seq!['.'] && cs.last() != seq!['.', '.'] {
        Some(cs.last())
    } else {
        None
    }
}

/// `Path::extension`: what follows the last `.` of the file name, unless the
/// name has no `.` or its only `.` is its first character.
pub open spec fn extension_spec(p: Seq<char>) -> Option<Seq<char>> {
    match file_name_spec(p) {
        Some(n) => {
            let k = last_index_of(n, '.');
            if k > 0 {
                Some(n.skip(k + 1))
            } else {
                None
            }
        },
        None => None,
    }
}

pub fn extension(p: &str) -> (r: Option<Vec<char>>)
    ensures
        match r {
            Some(e) => extension_spec(p@) == Some(e@),
            None => extension_spec(p@) is None,
        },
{
    let cs = components_of(&chars_of(p));
    if cs.len() == 0 {
        return None;
    }
    let last = &cs[cs.len() - 1];
    let is_root = last.len() == 1 && last[0] == '/';
    let is_cur = last.len() == 1 && last[0] == '.';
    let is_parent = last.len() == 2 && last[0] == '.' && last[1] == '.';
    proof {
        let l = cs@[cs@.len() - 1]@;
        assert(is_root == (l == seq!['/'])) by {
            if l.len() == 1 && l[0] == '/' {
                assert(l =~= seq!['/']);
            }
        }
        assert(is_cur == (l == seq!['.'])) by {
            if l.len() == 1 && l[0] == '.' {
                assert(l =~= seq!['.']);
            }
        }
        assert(is_parent == (l == seq!['.', '.'])) by {
            if l.len() == 2 && l[0] == '.' && l[1] == '.' {
                assert(l =~= seq!['.', '.']);
            }
        }
    }
    if is_root || is_cur || is_parent {
        return None;
    }
    proof {
        lemma_last_index_of(last@, '.');
    }
    match rfind_char(last, '.') {
        Some(k) => {
            if k > 0 {
                Some(slice_vec(last, k + 1, last.len()))
            } else {
                None
            }
        },
        None => None,
    }
}

/// The content type a static file is served with, by its extension.
pub open spec fn mime_spec(ext: Option<Seq<char>>) -> Seq<char> {
    match ext {
        Some(e) => if e == "html"@ || e == "htm"@ {
            "text/html; charset=utf-8"@
        } else if e == "css"@ {
            "text/css; charset=utf-8"@
        } else if e == "js"@ || e == "mjs"@ {
            "text/javascript; charset=utf-8"@
        } else if e == "json"@ {
            "application/json"@
        } else if e == "txt"@ {
            "text/plain; charset=utf-8"@
        } else if e == "xml"@ {
            "application/xml"@
        } else if e == "png"@ {
            "image/png"@
        } else if e == "jpg"@ || e == "jpeg"@ {
            "image/jpeg"@
        } else if e == "gif"@ {
            "image/gif"@
        } else if e == "svg"@ {
            "image/svg+xml"@
        } else if e == "webp"@ {
            "image/webp"@
        } else if e == "ico"@ {
            "image/x-icon"@
        } else if e == "pdf"@ {
            "application/pdf"@
        } else if e == "woff"@ || e == "woff2"@ {
            "application/font-woff"@
        } else if e == "ttf"@ {
            "font/ttf"@
        } else if e == "zip"@ {
            "application/zip"@
        } else if e == "tar"@ || e == "gz"@ {
            "application/gzip"@
        } else {
            "application/octet-stream"@
        },
        None => "application/octet-stream"@,
    }
}

fn ext_is(e: &Vec<char>, lit: &str) -> (b: bool)
    ensures
        b == (e@ == lit@),
{
    chars_eq(e, &chars_of(lit))
}

pub fn mime_for(path: &str) -> (m: &'static str)
    ensures
        m@ == mime_spec(extension_spec(path@)),
{
    match extension(path) {
        Some(e) => {
            if ext_is(&e, "html") || ext_is(&e, "htm") {
                "text/html; charset=utf-8"
            } else if ext_is(&e, "css") {
                "text/css; charset=utf-8"
            } else if ext_is(&e, "js") || ext_is(&e, "mjs") {
                "text/javascript; charset=utf-8"
            } else if ext_is(&e, "json") {
                "application/json"
            } else if ext_is(&e, "txt") {
                "text/plain; charset=utf-8"
            } else if ext_is(&e, "xml") {
                "application/xml"
            } else if ext_is(&e, "png") {
                "image/png"
            } else if ext_is(&e, "jpg") || ext_is(&e, "jpeg") {
                "image/jpeg"
            } else if ext_is(&e, "gif") {
                "image/gif"
            } else if ext_is(&e, "svg") {
                "image/svg+xml"
            } else if ext_is(&e, "webp") {
                "image/webp"
            } else if ext_is(&e, "ico") {
                "image/x-icon"
            } else if ext_is(&e, "pdf") {
                "application/pdf"
            } else if ext_is(&e, "woff") || ext_is(&e, "woff2") {
                "application/font-woff"
            } else if ext_is(&e, "ttf") {
                "font/ttf"
            } else if ext_is(&e, "zip") {
                "application/zip"
            } else if ext_is(&e, "tar") || ext_is(&e, "gz") {
                "application/gzip"
            } else {
                "application/octet-stream"
            }
        },
        None => "application/octet-stream",
    }
}

/// A PHP script: its extension is `php`.
pub fn is_php(path: &str) -> (b: bool)
    ensures
        b == (extension_spec(path@) == Some("php"@)),
{
    match extension(path) {
        Some(e) => ext_is(&e, "php"),
        None => false,
    }
}

// ================================================================ paths

/// Name of what `percent_decode_str(s).decode_utf8_lossy()` makes of `s`.
pub uninterp spec fn percent_decoded(s: Seq<char>) -> Seq<char>;

/// `percent_encoding::percent_decode_str(s).decode_utf8_lossy()`: each `%`
/// followed by two hexadecimal digits becomes the byte they spell, and the
/// bytes are read as (lossy) UTF-8.  The result depends on `s` alone and is
/// named `percent_decoded`; text without `%` comes back unchanged, since
/// every other byte is passed through and the bytes of a `str` are UTF-8.
#[verifier::external_body]
pub(crate) fn percent_decode(s: &str) -> (r: String)
    ensures
        r@ == percent_decoded(s@),
        !s@.contains('%') ==> r@ == s@,
{
    percent_encoding::percent_decode_str(s).decode_utf8_lossy().into_owned()
}

/// A segment of a request path that is refused: `..`, or one holding `\`.
pub open spec fn refused_segment(c: Seq<char>) -> bool {
    c == seq!['.', '.'] || c.contains('\\')
}

/// A segment that is skipped: empty, or `.`.
pub open spec fn skipped_segment(c: Seq<char>) -> bool {
    c.len() == 0 || c == seq!['.']
}

/// The root with each kept segment pushed onto it, in order.
pub open spec fn push_segments(root: Seq<char>, segs: Seq<Seq<char>>) -> Seq<char>
    decreases segs.len(),
{
    if segs.len() == 0 {
        root
    } else if skipped_segment(segs.last()) {
        push_segments(root, segs.drop_last())
    } else {
        join_path(push_segments(root, segs.drop_last()), segs.last())
    }
}

/// The file a request path names under a document root: the path is
/// percent-decoded and split at `/`; empty and `.` segments are skipped; a
/// `..` segment or one holding a backslash refuses the whole path.
pub open spec fn safe_join_spec(root: Seq<char>, uri_path: Seq<char>) -> Option<Seq<char>> {
    let segs = split_char(percent_decoded(uri_path), '/');
    if exists|i: int| 0 <= i < segs.len() && refused_segment(#[trigger] segs[i]) {
        None
    } else {
        Some(push_segments(root, segs))
    }
}

pub fn safe_join(root: &str, uri_path: &str) -> (r: Option<String>)
    ensures
        match r {
            Some(p) => safe_join_spec(root@, uri_path@) == Some(p@),
            None => safe_join_spec(root@, uri_path@) is None,
        },
{
    let decoded = percent_decode(uri_path);
    let segs = split_on(&chars_of(decoded.as_str()), '/');
    let ghost all = split_char(percent_decoded(uri_path@), '/');
    let mut base = string_of(&chars_of(root));
    let mut i: usize = 0;
    while i < segs.len()
        invariant
            i <= segs@.len() == all.len(),
            all == split_char(percent_decoded(uri_path@), '/'),
            forall|k: int| 0 <= k < segs@.len() ==> (#[trigger] segs@[k])@ == all[k],
            forall|k: int| 0 <= k < i ==> !refused_segment(#[trigger] all[k]),
            base@ == push_segments(root@, all.take(i as int)),
        decreases segs.len() - i,
    {
        let c = &segs[i];
        assert(all.take(i + 1).drop_last() =~= all.take(i as int));
        let is_dot = c.len() == 1 && c[0] == '.';
        let is_dotdot = c.len() == 2 && c[0] == '.' && c[1] == '.';
        proof {
            if c@.len() == 1 && c@[0] == '.' {
                assert(c@ =~= seq!['.']);
            }
            if c@.len() == 2 && c@[0] == '.' && c@[1] == '.' {
                assert(c@ =~= seq!['.', '.']);
            }
        }
        if c.len() == 0 || is_dot {
        } else {
            if is_dotdot || contains_char(c, '\\') {
                return None;
            }
            base = join(base.as_str(), string_of(c).as_str());
        }
        i += 1;
    }
    assert(all.take(segs.len() as int) =~= all);
    Some(base)
}

/// The index files tried, in order, when a path names a directory.
pub open spec fn index_name(i: int) -> Seq<char> {
    if i == 0 {
        "index.html"@
    } else if i == 1 {
        "index.htm"@
    } else {
        "index.php"@
    }
}

/// The first index file that exists, if any.
pub open spec fn first_index(index_files: Seq<bool>) -> int {
    if index_files.len() > 0 && index_files[0] {
        0
    } else if index_files.len() > 1 && index_files[1] {
        1
    } else if index_files.len() > 2 && index_files[2] {
        2
    } else {
        -1
    }
}

/// The file that answers a request.  `candidate` is what `safe_join` gave;
/// `is_dir` and `is_file` say what is on disk there, and `index_files`
/// whether `index.html`, `index.htm` and `index.php` exist as files inside
/// it.  A directory is answered by its first index file, a file by itself,
/// and anything else by nothing.
pub fn resolve(candidate: &str, is_dir: bool, index_files: &Vec<bool>, is_file: bool) -> (r: Option<String>)
    requires
        index_files@.len() == 3,
    ensures
        is_dir ==> (if first_index(index_files@) >= 0 {
            r matches Some(p) && p@ == join_path(candidate@, index_name(first_index(index_files@)))
        } else {
            r is None
        }),
        !is_dir ==> (if is_file {
            r matches Some(p) && p@ == candidate@
        } else {
            r is None
        }),
{
    if is_dir {
        if index_files[0] {
            Some(join(candidate, "index.html"))
        } else if index_files[1] {
            Some(join(candidate, "index.htm"))
        } else if index_files[2] {
            Some(join(candidate, "index.php"))
        } else {
            None
        }
    } else if is_file {
        Some(string_of(&chars_of(candidate)))
    } else {
        None
    }
}

// ================================================================ the host

/// The virtual host a `Host` header names: the part before any `:`,
/// trimmed and lower-cased; empty where there is no header.
pub open spec fn request_host_spec(header: Option<Seq<char>>) -> Seq<char> {
    match header {
        Some(h) => unicode_lower(trim(split_char(h, ':')[0])),
        None => Seq::empty(),
    }
}

pub fn request_host(header: Option<&str>) -> (r: String)
    ensures
        r@ == request_host_spec(match header {
            Some(h) => Some(h@),
            None => None,
        }),
{
    match header {
        Some(h) => {
            let parts = split_on(&chars_of(h), ':');
            proof {
                crate::text::lemma_split_char_len(h@, ':');
            }
            to_lowercase(string_of(&trim_chars(&parts[0])).as_str())
        },
        None => String::new(),
    }
}

// ================================================================ blocked addresses

/// An IP address: IPv4 or IPv6, as its number.
#[derive(PartialEq, Eq, Structural, Clone, Copy)]
pub enum IpVal {
    V4(u32),
    V6(u128),
}

/// An entry of a domain's block list, as read: blank; a single address; a
/// network `address/prefix` (prefix a `u8`); or text that is neither.
#[derive(PartialEq, Eq, Structural, Clone, Copy)]
pub enum BlockEntry {
    Blank,
    Addr(IpVal),
    Net(IpVal, u8),
    Other,
}

/// The mask of an IPv4 prefix (1 and more; 32 and more cover every bit).
pub open spec fn mask4(p: u8) -> u32 {
    if p >= 32 {
        u32::MAX
    } else {
        u32::MAX << ((32 - p) as u32)
    }
}

/// The mask of an IPv6 prefix (1 and more; 128 and more cover every bit).
pub open spec fn mask6(p: u8) -> u128 {
    if p >= 128 {
        u128::MAX
    } else {
        u128::MAX << ((128 - p) as u32)
    }
}

/// The entry covers the client's address.
pub open spec fn entry_matches(client: Option<IpVal>, e: BlockEntry) -> bool {
    match (e, client) {
        (BlockEntry::Addr(a), Some(c)) => a == c,
        (BlockEntry::Net(IpVal::V4(n), p), Some(IpVal::V4(c))) => (n & mask4(p)) == (c & mask4(p)),
        (BlockEntry::Net(IpVal::V6(n), p), Some(IpVal::V6(c))) => (n & mask6(p)) == (c & mask6(p)),
        _ => false,
    }
}

/// A `/0` network of the client's family: its mask would shift every bit
/// out, which the arithmetic of the check does not allow.
pub open spec fn entry_overflows(client: Option<IpVal>, e: BlockEntry) -> bool {
    match (e, client) {
        (BlockEntry::Net(IpVal::V4(_), 0), Some(IpVal::V4(_))) => true,
        (BlockEntry::Net(IpVal::V6(_), 0), Some(IpVal::V6(_))) => true,
        _ => false,
    }
}

/// Scanning the entries in order: `Some(true)` at the first that covers the
/// client, `Some(false)` where none does, `None` where a `/0` network of the
/// client's family comes first.
pub open spec fn block_scan(client: Option<IpVal>, es: Seq<BlockEntry>) -> Option<bool>
    decreases es.len(),
{
    if es.len() == 0 {
        Some(false)
    } else if entry_overflows(client, es[0]) {
        None
    } else if entry_matches(client, es[0]) {
        Some(true)
    } else {
        block_scan(client, es.drop_first())
    }
}

/// Whether the client's address (`None` where it could not be read) is on
/// the block list.
pub fn ip_in_block(client: Option<IpVal>, entries: &Vec<BlockEntry>) -> (b: bool)
    requires
        block_scan(client, entries@) is Some,
    ensures
        block_scan(client, entries@) == Some(b),
{
    let mut i: usize = 0;
    assert(entries@.skip(0) =~= entries@);
    while i < entries.len()
        invariant
            i <= entries@.len(),
            block_scan(client, entries@) == block_scan(client, entries@.skip(i as int)),
            block_scan(client, entries@) is Some,
        decreases entries.len() - i,
    {
        let ghost rest = entries@.skip(i as int);
        assert(rest[0] == entries@[i as int]);
        assert(rest.drop_first() =~= entries@.skip(i + 1));
        let e = entries[i];
        let hit = match (e, client) {
            (BlockEntry::Addr(a), Some(c)) => a == c,
            (BlockEntry::Net(IpVal::V4(n), p), Some(IpVal::V4(c))) => {
                let mask: u32 = if p >= 32 {
                    u32::MAX
                } else {
                    u32::MAX << ((32 - p) as u32)
                };
                (n & mask) == (c & mask)
            },
            (BlockEntry::Net(IpVal::V6(n), p), Some(IpVal::V6(c))) => {
                let mask: u128 = if p >= 128 {
                    u128::MAX
                } else {
                    u128::MAX << ((128 - p) as u32)
                };
                (n & mask) == (c & mask)
            },
            _ => false,
        };
        if hit {
            return true;
        }
        i += 1;
    }
    false
}

/// Scans that agree entry by entry (on overflow and on cover) agree.
proof fn lemma_scan_agree(client: Option<IpVal>, es1: Seq<BlockEntry>, es2: Seq<BlockEntry>)
    requires
        es1.len() == es2.len(),
        forall|k: int| 0 <= k < es1.len() ==> entry_overflows(client, #[trigger] es1[k]) == entry_overflows(client, es2[k])
            && entry_matches(client, es1[k]) == entry_matches(client, es2[k]),
    ensures
        block_scan(client, es1) == block_scan(client, es2),
    decreases es1.len(),
{
    if es1.len() > 0 {
        assert(entry_overflows(client, es1[0]) == entry_overflows(client, es2[0]));
        assert forall|k: int| 0 <= k < es1.drop_first().len() implies entry_overflows(client, #[trigger] es1.drop_first()[k])
            == entry_overflows(client, es2.drop_first()[k]) && entry_matches(client, es1.drop_first()[k])
            == entry_matches(client, es2.drop_first()[k]) by {
            assert(es1.drop_first()[k] == es1[k + 1]);
            assert(es2.drop_first()[k] == es2[k + 1]);
        }
        lemma_scan_agree(client, es1.drop_first(), es2.drop_first());
    }
}

/// An entry that covers the client, with no `/0` network of the client's
/// family anywhere in the list, makes the scan answer `true`.
proof fn lemma_scan_hit(client: Option<IpVal>, es: Seq<BlockEntry>, i: int)
    requires
        0 <= i < es.len(),
        entry_matches(client, es[i]),
        forall|k: int| 0 <= k < es.len() ==> !entry_overflows(client, #[trigger] es[k]),
    ensures
        block_scan(client, es) == Some(true),
    decreases i,
{
    assert(!entry_overflows(client, es[0]));
    if i > 0 && !entry_matches(client, es[0]) {
        assert(es.drop_first()[i - 1] == es[i]);
        assert forall|k: int| 0 <= k < es.drop_first().len() implies !entry_overflows(client, #[trigger] es.drop_first()[k]) by {
            assert(es.drop_first()[k] == es[k + 1]);
        }
        lemma_scan_hit(client, es.drop_first(), i - 1);
    }
}

/// The leading `p` bits of an IPv4 address: the mask of a network `/p`.
pub open spec fn v4_prefix_mask(p: u8) -> u32 {
    if p >= 32 {
        0xffff_ffffu32
    } else {
        (0xffff_ffffu32 << ((32 - p) as u32)) as u32
    }
}

/// The leading `p` bits of an IPv6 address: the mask of a network `/p`.
pub open spec fn v6_prefix_mask(p: u8) -> u128 {
    if p >= 128 {
        0xffff_ffff_ffff_ffff_ffff_ffff_ffff_ffffu128
    } else {
        (0xffff_ffff_ffff_ffff_ffff_ffff_ffff_ffffu128 << ((128 - p) as u32)) as u128
    }
}

/// A network entry blocks a client of its family exactly by the leading `p`
/// bits: a client that agrees with the network's address on them is blocked
/// (where the list holds no `/0` network of that family), whatever host bits
/// the entry was written with; and clearing the entry's host bits changes no
/// answer.
pub proof fn law_network_blocks_by_prefix_v4(c: u32, es: Seq<BlockEntry>, i: int, n: u32, p: u8)
    requires
        0 <= i < es.len(),
        es[i] == BlockEntry::Net(IpVal::V4(n), p),
        p >= 1,
    ensures
        block_scan(Some(IpVal::V4(c)), es) == block_scan(
            Some(IpVal::V4(c)),
            es.update(i, BlockEntry::Net(IpVal::V4(n & v4_prefix_mask(p)), p)),
        ),
        (c & v4_prefix_mask(p)) == (n & v4_prefix_mask(p)) && (forall|k: int|
            0 <= k < es.len() ==> !entry_overflows(Some(IpVal::V4(c)), #[trigger] es[k])) ==> block_scan(
            Some(IpVal::V4(c)),
            es,
        ) == Some(true),
{
    let client = Some(IpVal::V4(c));
    let m = v4_prefix_mask(p);
    assert(mask4(p) == m) by {
        assert(u32::MAX == 0xffff_ffffu32);
    }
    assert((n & m) & m == n & m) by (bit_vector);
    let es2 = es.update(i, BlockEntry::Net(IpVal::V4(n & m), p));
    assert forall|k: int| 0 <= k < es.len() implies entry_overflows(client, #[trigger] es[k]) == entry_overflows(client, es2[k])
        && entry_matches(client, es[k]) == entry_matches(client, es2[k]) by {
        if k == i {
            assert(es2[k] == BlockEntry::Net(IpVal::V4(n & m), p));
        }
    }
    lemma_scan_agree(client, es, es2);
    if (c & m) == (n & m) && (forall|k: int| 0 <= k < es.len() ==> !entry_overflows(client, #[trigger] es[k])) {
        assert(entry_matches(client, es[i]));
        lemma_scan_hit(client, es, i);
    }
}

/// The IPv6 form of `law_network_blocks_by_prefix_v4`.
pub proof fn law_network_blocks_by_prefix_v6(c: u128, es: Seq<BlockEntry>, i: int, n: u128, p: u8)
    requires
        0 <= i < es.len(),
        es[i] == BlockEntry::Net(IpVal::V6(n), p),
        p >= 1,
    ensures
        block_scan(Some(IpVal::V6(c)), es) == block_scan(
            Some(IpVal::V6(c)),
            es.update(i, BlockEntry::Net(IpVal::V6(n & v6_prefix_mask(p)), p)),
        ),
        (c & v6_prefix_mask(p)) == (n & v6_prefix_mask(p)) && (forall|k: int|
            0 <= k < es.len() ==> !entry_overflows(Some(IpVal::V6(c)), #[trigger] es[k])) ==> block_scan(
            Some(IpVal::V6(c)),
            es,
        ) == Some(true),
{
    let client = Some(IpVal::V6(c));
    let m = v6_prefix_mask(p);
    assert(mask6(p) == m) by {
        assert(u128::MAX == 0xffff_ffff_ffff_ffff_ffff_ffff_ffff_ffffu128);
    }
    assert((n & m) & m == n & m) by (bit_vector);
    let es2 = es.update(i, BlockEntry::Net(IpVal::V6(n & m), p));
    assert forall|k: int| 0 <= k < es.len() implies entry_overflows(client, #[trigger] es[k]) == entry_overflows(client, es2[k])
        && entry_matches(client, es[k]) == entry_matches(client, es2[k]) by {
        if k == i {
            assert(es2[k] == BlockEntry::Net(IpVal::V6(n & m), p));
        }
    }
    lemma_scan_agree(client, es, es2);
    if (c & m) == (n & m) && (forall|k: int| 0 <= k < es.len() ==> !entry_overflows(client, #[trigger] es[k])) {
        assert(entry_matches(client, es[i]));
        lemma_scan_hit(client, es, i);
    }
}

// ================================================================ hotlinks

/// `a.eq_ignore_ascii_case(b)`.
pub open spec fn eq_ignore_case(a: Seq<char>, b: Seq<char>) -> bool {
    crate::text::ascii_lower(a) == crate::text::ascii_lower(b)
}

pub fn eq_ignore_ascii_case(a: &Vec<char>, b: &Vec<char>) -> (r: bool)
    ensures
        r == eq_ignore_case(a@, b@),
{
    let la = crate::text::lower_ascii(a);
    let lb = crate::text::lower_ascii(b);
    let r = chars_eq(&la, &lb);
    assert(la@.len() == a@.len() && lb@.len() == b@.len());
    r
}

/// `s.trim_start_matches(p)`: every leading copy of `p` removed.
pub open spec fn trim_start_str(s: Seq<char>, p: Seq<char>) -> Seq<char>
    decreases s.len(),
{
    if p.len() > 0 && s.len() >= p.len() && s.take(p.len() as int) == p {
        trim_start_str(s.skip(p.len() as int), p)
    } else {
        s
    }
}

fn trim_start_exec(s: &Vec<char>, p: &Vec<char>) -> (r: Vec<char>)
    ensures
        r@ == trim_start_str(s@, p@),
{
    let mut start: usize = 0;
    assert(s@.skip(0) =~= s@);
    while p.len() > 0 && s.len() - start >= p.len() && crate::text::starts_with_at(s, p, start)
        invariant
            start <= s.len(),
            trim_start_str(s@, p@) == trim_start_str(s@.skip(start as int), p@),
        decreases s.len() - start,
    {
        let ghost rest = s@.skip(start as int);
        assert(rest.take(p@.len() as int) =~= s@.subrange(start as int, start + p@.len()));
        assert(rest.skip(p@.len() as int) =~= s@.skip(start + p@.len()));
        start = start + p.len();
    }
    proof {
        let rest = s@.skip(start as int);
        if p@.len() > 0 && rest.len() >= p@.len() && rest.take(p@.len() as int) == p@ {
            assert(rest.take(p@.len() as int) =~= s@.subrange(start as int, start + p@.len()));
        }
    }
    let r = slice_vec(s, start, s.len());
    assert(r@ =~= s@.skip(start as int));
    r
}

/// The host a `Referer` names: without any leading `https://`, then any
/// leading `http://`, up to the first `/`, then up to the first `:`.
pub open spec fn referer_host(referer: Seq<char>) -> Seq<char> {
    let rest = trim_start_str(trim_start_str(referer, "https://"@), "http://"@);
    split_char(split_char(rest, '/')[0], ':')[0]
}

/// The extension a hotlink check looks at: the text after the path's last
/// `.` (the whole path where it has none), lower-cased.
pub open spec fn hotlink_ext(path: Seq<char>) -> Seq<char> {
    unicode_lower(split_char(path, '.').last())
}

/// Hotlink protection refuses a request: it is on; the request is a GET or
/// HEAD for one of the protected extensions (a `|`-separated list, compared
/// ignoring ASCII case); and its `Referer` is missing where missing ones are
/// not allowed, or names a host that is neither allowed nor the domain.
pub open spec fn hotlink_refused(hl: HotlinkCfg, domain: Seq<char>, method: Seq<char>, path: Seq<char>, referer: Seq<char>) -> bool {
    let ext = hotlink_ext(path);
    let host = referer_host(referer);
    &&& hl.enabled
    &&& method == "GET"@ || method == "HEAD"@
    &&& ext.len() > 0
    &&& exists|i: int| 0 <= i < split_char(hl.extensions@, '|').len() && eq_ignore_case(
        #[trigger] split_char(hl.extensions@, '|')[i],
        ext,
    )
    &&& referer.len() > 0 || !hl.allow_empty
    &&& !(if referer.len() == 0 {
        hl.allow_empty
    } else {
        (exists|i: int| 0 <= i < hl.allowed@.len() && eq_ignore_case((#[trigger] hl.allowed@[i])@, host))
            || eq_ignore_case(host, domain)
    })
}

fn any_eq_ignore_case(list: &Vec<Vec<char>>, x: &Vec<char>) -> (b: bool)
    ensures
        b == exists|i: int| 0 <= i < list@.len() && eq_ignore_case((#[trigger] list@[i])@, x@),
{
    let mut i: usize = 0;
    while i < list.len()
        invariant
            i <= list@.len(),
            forall|j: int| 0 <= j < i ==> !eq_ignore_case((#[trigger] list@[j])@, x@),
        decreases list.len() - i,
    {
        if eq_ignore_ascii_case(&list[i], x) {
            return true;
        }
        i += 1;
    }
    false
}

fn any_string_eq_ignore_case(list: &Vec<String>, x: &Vec<char>) -> (b: bool)
    ensures
        b == exists|i: int| 0 <= i < list@.len() && eq_ignore_case((#[trigger] list@[i])@, x@),
{
    let mut i: usize = 0;
    while i < list.len()
        invariant
            i <= list@.len(),
            forall|j: int| 0 <= j < i ==> !eq_ignore_case((#[trigger] list@[j])@, x@),
        decreases list.len() - i,
    {
        if eq_ignore_ascii_case(&chars_of(list[i].as_str()), x) {
            return true;
        }
        i += 1;
    }
    false
}

/// Whether hotlink protection refuses the request.  `referer` is the
/// `Referer` header as text (`None` where missing or not visible ASCII).
pub fn hotlink_blocks(hl: &HotlinkCfg, domain: &str, method: &str, path: &str, referer: Option<&str>) -> (b: bool)
    ensures
        b == hotlink_refused(*hl, domain@, method@, path@, match referer {
            Some(r) => r@,
            None => Seq::empty(),
        }),
{
    let rf: Vec<char> = match referer {
        Some(r) => chars_of(r),
        None => Vec::new(),
    };
    if !hl.enabled {
        return false;
    }
    let m = chars_of(method);
    if !(chars_eq(&m, &chars_of("GET")) || chars_eq(&m, &chars_of("HEAD"))) {
        return false;
    }
    let pieces = split_on(&chars_of(path), '.');
    proof {
        crate::text::lemma_split_char_len(path@, '.');
    }
    let ext = chars_of(to_lowercase(string_of(&pieces[pieces.len() - 1]).as_str()).as_str());
    if ext.len() == 0 {
        return false;
    }
    let exts = split_on(&chars_of(hl.extensions.as_str()), '|');
    if !any_eq_ignore_case(&exts, &ext) {
        proof {
            let sp = split_char(hl.extensions@, '|');
            if exists|i: int| 0 <= i < sp.len() && eq_ignore_case(#[trigger] sp[i], ext@) {
                let i = choose|i: int| 0 <= i < sp.len() && eq_ignore_case(#[trigger] sp[i], ext@);
                assert(exts@[i]@ == sp[i]);
            }
        }
        return false;
    }
    if !(rf.len() > 0 || !hl.allow_empty) {
        return false;
    }
    let ok = if rf.len() == 0 {
        hl.allow_empty
    } else {
        let a = trim_start_exec(&rf, &chars_of("https://"));
        let b = trim_start_exec(&a, &chars_of("http://"));
        let p1 = split_on(&b, '/');
        proof {
            crate::text::lemma_split_char_len(b@, '/');
        }
        let p2 = split_on(&p1[0], ':');
        proof {
            crate::text::lemma_split_char_len(p1@[0]@, ':');
        }
        let host = &p2[0];
        any_string_eq_ignore_case(&hl.allowed, host) || eq_ignore_ascii_case(host, &chars_of(domain))
    };
    !ok
}

// ================================================================ the firewall

/// `s.replace('+', " ")`.
pub open spec fn plus_to_space(s: Seq<char>) -> Seq<char> {
    s.map_values(|c: char| if c == '+' { ' ' } else { c })
}

fn plus_to_space_exec(s: &Vec<char>) -> (r: Vec<char>)
    ensures
        r@ == plus_to_space(s@),
{
    let mut r: Vec<char> = Vec::new();
    let mut i: usize = 0;
    while i < s.len()
        invariant
            i <= s.len(),
            r@ == plus_to_space(s@.take(i as int)),
        decreases s.len() - i,
    {
        r.push(if s[i] == '+' { ' ' } else { s[i] });
        i += 1;
        assert(r@ =~= plus_to_space(s@.take(i as int)));
    }
    assert(s@.take(s.len() as int) =~= s@);
    r
}

/// A pattern trips on a request: it compiles and matches the decoded path,
/// or the decoded query where that is not empty.
pub open spec fn pattern_hits(pattern: Seq<char>, uri: Seq<char>, query: Seq<char>) -> bool {
    pattern_compiles(pattern) && (pattern_matches(pattern, uri) || (query.len() > 0 && pattern_matches(pattern, query)))
}

/// The index of the first pattern that trips, or -1.
pub open spec fn first_hit(patterns: Seq<String>, uri: Seq<char>, query: Seq<char>) -> int
    decreases patterns.len(),
{
    if patterns.len() == 0 {
        -1
    } else if pattern_hits(patterns[0]@, uri, query) {
        0
    } else {
        let k = first_hit(patterns.drop_first(), uri, query);
        if k < 0 {
            -1
        } else {
            k + 1
        }
    }
}

proof fn lemma_first_hit(patterns: Seq<String>, uri: Seq<char>, query: Seq<char>)
    ensures
        -1 <= first_hit(patterns, uri, query) < patterns.len(),
    decreases patterns.len(),
{
    if patterns.len() > 0 {
        lemma_first_hit(patterns.drop_first(), uri, query);
    }
}

/// The decoded text the firewall matches against: percent-decoded, `+` read as a space.
pub open spec fn firewall_text(s: Seq<char>) -> Seq<char> {
    plus_to_space(percent_decoded(s))
}

/// What the firewall does with a request.
pub enum WafVerdict {
    /// No pattern tripped, or the firewall is off or empty.
    Pass,
    /// The pattern at this index tripped, in log-only mode: the request goes on.
    Logged(usize),
    /// The pattern at this index tripped: the request is refused.
    Blocked(usize),
}

/// The firewall on a request path and query (`None` where there is none).
#[verifier::loop_isolation(false)]
pub fn waf_verdict(waf: &WafCfg, path: &str, query: Option<&str>) -> (v: WafVerdict)
    ensures
        ({
            let uri = firewall_text(path@);
            let q = firewall_text(match query {
                Some(q) => q@,
                None => Seq::empty(),
            });
            let k = first_hit(waf.patterns@, uri, q);
            if !waf.enabled || waf.patterns@.len() == 0 || k < 0 {
                v is Pass
            } else if waf.mode@ == "log"@ {
                v matches WafVerdict::Logged(i) && i == k
            } else {
                v matches WafVerdict::Blocked(i) && i == k
            }
        }),
{
    if !waf.enabled || waf.patterns.len() == 0 {
        return WafVerdict::Pass;
    }
    let uri_s = string_of(&plus_to_space_exec(&chars_of(percent_decode(path).as_str())));
    let qraw: String = match query {
        Some(q) => string_of(&chars_of(q)),
        None => String::new(),
    };
    assert(qraw@ == match query {
        Some(q) => q@,
        None => Seq::<char>::empty(),
    });
    let q_s = string_of(&plus_to_space_exec(&chars_of(percent_decode(qraw.as_str()).as_str())));
    proof {
        lemma_first_hit(waf.patterns@, uri_s@, q_s@);
    }
    let ghost uri = uri_s@;
    let ghost qv = q_s@;
    let log_mode = chars_eq(&chars_of(waf.mode.as_str()), &chars_of("log"));
    let mut i: usize = 0;
    assert(waf.patterns@.skip(0) =~= waf.patterns@);
    while i < waf.patterns.len()
        invariant
            i <= waf.patterns@.len(),
            uri == uri_s@,
            qv == q_s@,
            first_hit(waf.patterns@, uri, qv) == (if first_hit(waf.patterns@.skip(i as int), uri, qv) < 0 {
                -1
            } else {
                first_hit(waf.patterns@.skip(i as int), uri, qv) + i
            }),
        decreases waf.patterns.len() - i,
    {
        let ghost rest = waf.patterns@.skip(i as int);
        assert(rest[0] == waf.patterns@[i as int]);
        assert(rest.drop_first() =~= waf.patterns@.skip(i + 1));
        let hit = match compile(waf.patterns[i].as_str()) {
            Some(p) => is_match(&p, uri_s.as_str()) || (!q_s.as_str().is_empty() && is_match(&p, q_s.as_str())),
            None => false,
        };
        if hit {
            if log_mode {
                return WafVerdict::Logged(i);
            } else {
                assert(waf.mode@ != "log"@);
                return WafVerdict::Blocked(i);
            }
        }
        i += 1;
    }
    assert(waf.patterns@.skip(waf.patterns@.len() as int) =~= Seq::<String>::empty());
    WafVerdict::Pass
}

// ================================================================ redirects

/// A redirect rule applies to a decoded path: its source is the path, or
/// it is `/` and the path is `/` or empty.
pub open spec fn rule_applies(r: RedirectEntry, decoded: Seq<char>) -> bool {
    r.from@ == decoded || (r.from@ == seq!['/'] && (decoded == seq!['/'] || decoded.len() == 0))
}

/// The index of the first rule that applies, or -1.
pub open spec fn first_rule(rules: Seq<RedirectEntry>, decoded: Seq<char>) -> int
    decreases rules.len(),
{
    if rules.len() == 0 {
        -1
    } else if rule_applies(rules[0], decoded) {
        0
    } else {
        let k = first_rule(rules.drop_first(), decoded);
        if k < 0 {
            -1
        } else {
            k + 1
        }
    }
}

proof fn lemma_first_rule(rules: Seq<RedirectEntry>, decoded: Seq<char>)
    ensures
        -1 <= first_rule(rules, decoded) < rules.len(),
    decreases rules.len(),
{
    if rules.len() > 0 {
        lemma_first_rule(rules.drop_first(), decoded);
    }
}

/// The redirect for a decoded path: 301 for a permanent rule, 302 otherwise,
/// to the rule's target.
pub fn find_redirect(rules: &Vec<RedirectEntry>, decoded: &str) -> (r: Option<(u16, String)>)
    ensures
        first_rule(rules@, decoded@) < 0 ==> r is None,
        first_rule(rules@, decoded@) >= 0 ==> ({
            let rule = rules@[first_rule(rules@, decoded@)];
            r matches Some((status, to)) && status == (if rule.permanent {
                301u16
            } else {
                302u16
            }) && to@ == rule.to@
        }),
{
    let d = chars_of(decoded);
    let slash: Vec<char> = vec!['/'];
    assert(slash@ =~= seq!['/']);
    let mut i: usize = 0;
    proof {
        lemma_first_rule(rules@, decoded@);
    }
    assert(rules@.skip(0) =~= rules@);
    while i < rules.len()
        invariant
            i <= rules@.len(),
            d@ == decoded@,
            slash@ == seq!['/'],
            first_rule(rules@, decoded@) == (if first_rule(rules@.skip(i as int), decoded@) < 0 {
                -1
            } else {
                first_rule(rules@.skip(i as int), decoded@) + i
            }),
        decreases rules.len() - i,
    {
        let ghost rest = rules@.skip(i as int);
        assert(rest[0] == rules@[i as int]);
        assert(rest.drop_first() =~= rules@.skip(i + 1));
        let from = chars_of(rules[i].from.as_str());
        if chars_eq(&from, &d) || (chars_eq(&from, &slash) && (chars_eq(&d, &slash) || d.len() == 0)) {
            let status: u16 = if rules[i].permanent {
                301
            } else {
                302
            };
            return Some((status, string_of(&chars_of(rules[i].to.as_str()))));
        }
        i += 1;
    }
    None
}

// ================================================================ the decision

/// The answer to a request, before any file is read.
pub enum Decision {
    /// A request without a path: nothing is answered.
    Ignore,
    /// No virtual host serves the `Host`: 404 with this page.
    NoVhost(String),
    /// The client's address is blocked: 403 with this page.
    AddressBlocked(String),
    /// Hotlink protection refuses the request: 403 with this page.
    Hotlink(String),
    /// The application firewall refuses the request: 403 with this page.
    Firewall(String),
    /// A redirect rule applies.
    Redirect { status: u16, location: String },
    /// The domain runs an application behind this address.
    Proxy(String),
    /// A file under this root answers the (decoded) path.
    Serve { root: String, decoded: String },
}

/// The firewall refuses the request.
pub open spec fn waf_blocks(w: WafCfg, path: Seq<char>, query: Seq<char>) -> bool {
    w.enabled && w.patterns@.len() > 0 && first_hit(w.patterns@, firewall_text(path), firewall_text(query)) >= 0
        && w.mode@ != "log"@
}

pub open spec fn no_vhost_page(host: Seq<char>) -> Seq<char> {
    "<h1>404 Not Found</h1><p>No vhost configured for <b>"@ + host + "</b></p>"@
}

pub open spec fn blocked_page() -> Seq<char> {
    "<h1>403 Forbidden</h1><p>Your IP address is blocked on this domain.</p>"@
}

pub open spec fn hotlink_page() -> Seq<char> {
    "<h1>403 Forbidden</h1><p>Hotlink protection is enabled on this domain.</p>"@
}

pub open spec fn firewall_page() -> Seq<char> {
    "<h1>403 Forbidden</h1><p>The request was blocked by the application firewall.</p>"@
}

pub open spec fn opt_seq(o: Option<&str>) -> Seq<char> {
    match o {
        Some(s) => s@,
        None => Seq::empty(),
    }
}

/// The security checks of a domain refuse the request: a blocked address
/// first, then hotlink protection, then the firewall.
pub open spec fn address_blocked(sec: Option<&SecurityProvision>, client: Option<IpVal>, blocks: Seq<BlockEntry>) -> bool {
    sec is Some && blocks.len() > 0 && block_scan(client, blocks) == Some(true)
}

/// How a request is answered, given the normalised host, the path and
/// query, the method, the client's address, the `Referer`, and what is
/// configured for the host: its virtual host, its security settings (with
/// the block list read into `blocks`), its redirect rules and its
/// application address.  Checks are made in that order; the first that
/// decides gives the answer.
pub fn decide(
    host: &str,
    uri_path: &str,
    query: Option<&str>,
    method: &str,
    client: Option<IpVal>,
    referer: Option<&str>,
    vhost: Option<&Vhost>,
    sec: Option<&SecurityProvision>,
    blocks: &Vec<BlockEntry>,
    rules: &Vec<RedirectEntry>,
    runtime: Option<&str>,
) -> (d: Decision)
    requires
        sec is Some && blocks@.len() > 0 ==> block_scan(client, blocks@) is Some,
    ensures
        uri_path@.len() == 0 ==> d is Ignore,
        uri_path@.len() > 0 && vhost is None ==> (d matches Decision::NoVhost(b) && b@ == no_vhost_page(host@)),
        uri_path@.len() > 0 && vhost is Some ==> ({
            let decoded = percent_decoded(uri_path@);
            let k = first_rule(rules@, decoded);
            if address_blocked(sec, client, blocks@) {
                d matches Decision::AddressBlocked(b) && b@ == blocked_page()
            } else if sec matches Some(s) && s.hotlink matches Some(hl) && hotlink_refused(
                hl,
                s.domain@,
                method@,
                uri_path@,
                opt_seq(referer),
            ) {
                d matches Decision::Hotlink(b) && b@ == hotlink_page()
            } else if sec matches Some(s) && s.waf matches Some(w) && waf_blocks(w, uri_path@, opt_seq(query)) {
                d matches Decision::Firewall(b) && b@ == firewall_page()
            } else if k >= 0 {
                d matches Decision::Redirect { status, location } && status == (if rules@[k].permanent {
                    301u16
                } else {
                    302u16
                }) && location@ == rules@[k].to@
            } else if runtime is Some {
                d matches Decision::Proxy(target) && target@ == runtime.unwrap()@
            } else {
                d matches Decision::Serve { root, decoded: dd } && root@ == vhost.unwrap().root@ && dd@ == decoded
            }
        }),
{
    if uri_path.is_empty() {
        return Decision::Ignore;
    }
    let v = match vhost {
        None => {
            let mut page = chars_of("<h1>404 Not Found</h1><p>No vhost configured for <b>");
            crate::text::extend_str(&mut page, host);
            crate::text::extend_str(&mut page, "</b></p>");
            return Decision::NoVhost(string_of(&page));
        },
        Some(v) => v,
    };
    if let Some(s) = sec {
        if blocks.len() > 0 && ip_in_block(client, blocks) {
            return Decision::AddressBlocked(
                "<h1>403 Forbidden</h1><p>Your IP address is blocked on this domain.</p>".to_string(),
            );
        }
        if let Some(hl) = &s.hotlink {
            if hotlink_blocks(hl, s.domain.as_str(), method, uri_path, referer) {
                return Decision::Hotlink(
                    "<h1>403 Forbidden</h1><p>Hotlink protection is enabled on this domain.</p>".to_string(),
                );
            }
        }
        if let Some(w) = &s.waf {
            match waf_verdict(w, uri_path, query) {
                WafVerdict::Blocked(_) => {
                    return Decision::Firewall(
                        "<h1>403 Forbidden</h1><p>The request was blocked by the application firewall.</p>".to_string(),
                    );
                },
                _ => {},
            }
        }
    }
    let decoded = percent_decode(uri_path);
    match find_redirect(rules, decoded.as_str()) {
        Some((status, location)) => {
            return Decision::Redirect { status, location };
        },
        None => {},
    }
    match runtime {
        Some(t) => Decision::Proxy(t.to_string()),
        None => Decision::Serve { root: string_of(&chars_of(v.root.as_str())), decoded },
    }
}

// ================================================================ CGI output

/// What a PHP script answered.
pub struct PhpOut {
    pub status: u16,
    pub location: Option<String>,
    pub content_type: Option<String>,
    pub body: Vec<u8>,
}

/// The first position at which `pat` occurs in `raw`, or -1.
pub open spec fn find_bytes(raw: Seq<u8>, pat: Seq<u8>) -> int
    decreases raw.len(),
{
    if raw.len() >= pat.len() && raw.take(pat.len() as int) == pat {
        0
    } else if raw.len() == 0 {
        -1
    } else {
        let k = find_bytes(raw.drop_first(), pat);
        if k < 0 {
            -1
        } else {
            k + 1
        }
    }
}

proof fn lemma_find_bytes(raw: Seq<u8>, pat: Seq<u8>)
    ensures
        -1 <= find_bytes(raw, pat),
        find_bytes(raw, pat) >= 0 ==> find_bytes(raw, pat) + pat.len() <= raw.len(),
        raw.len() < pat.len() ==> find_bytes(raw, pat) == -1,
    decreases raw.len(),
{
    if !(raw.len() >= pat.len() && raw.take(pat.len() as int) == pat) && raw.len() > 0 {
        lemma_find_bytes(raw.drop_first(), pat);
    }
}

fn find_bytes_exec(raw: &Vec<u8>, pat: &Vec<u8>) -> (r: Option<usize>)
    ensures
        match r {
            Some(i) => find_bytes(raw@, pat@) == i as int && i + pat@.len() <= raw@.len(),
            None => find_bytes(raw@, pat@) == -1,
        },
{
    proof {
        lemma_find_bytes(raw@, pat@);
    }
    if pat.len() > raw.len() {
        return None;
    }
    if pat.len() == 0 {
        assert(raw@.take(0) =~= pat@);
        return Some(0);
    }
    let n: usize = raw.len() - pat.len();
    let mut i: usize = 0;
    assert(raw@.skip(0) =~= raw@);
    while i <= n
        invariant
            n + pat@.len() == raw@.len(),
            raw@.len() <= usize::MAX,
            pat@.len() > 0,
            i <= n + 1,
            find_bytes(raw@, pat@) == (if find_bytes(raw@.skip(i as int), pat@) < 0 {
                -1
            } else {
                find_bytes(raw@.skip(i as int), pat@) + i
            }),
        decreases n + 1 - i,
    {
        let ghost rest = raw@.skip(i as int);
        let mut j: usize = 0;
        let mut same = true;
        while j < pat.len()
            invariant
                i + pat@.len() <= raw@.len(),
                raw@.len() <= usize::MAX,
                j <= pat@.len(),
                same == (forall|k: int| 0 <= k < j ==> raw@[i + k] == pat@[k]),
            decreases pat.len() - j,
        {
            if raw[i + j] != pat[j] {
                same = false;
            }
            j += 1;
        }
        if same {
            assert(rest.take(pat@.len() as int) =~= pat@);
            return Some(i);
        }
        proof {
            let k = choose|k: int| 0 <= k < pat@.len() && raw@[i + k] != pat@[k];
            assert(rest.take(pat@.len() as int)[k] != pat@[k]);
            assert(rest.drop_first() =~= raw@.skip(i + 1));
        }
        i += 1;
    }
    proof {
        lemma_find_bytes(raw@.skip(i as int), pat@);
    }
    None
}

/// Where the header block of a CGI answer ends: after the first blank line
/// (`\r\n\r\n`, else `\n\n`); 0 where there is none.
pub open spec fn head_end(raw: Seq<u8>) -> int {
    let a = find_bytes(raw, seq![13u8, 10u8, 13u8, 10u8]);
    let b = find_bytes(raw, seq![10u8, 10u8]);
    if a >= 0 {
        a + 4
    } else if b >= 0 {
        b + 2
    } else {
        0
    }
}

/// The lines of the header block, each without trailing `\r`s.
pub open spec fn head_lines(raw: Seq<u8>) -> Seq<Seq<char>> {
    let ls = crate::text::lines(crate::cache::lossy_text(raw.take(head_end(raw))));
    Seq::new(ls.len(), |i: int| trim_end_char(ls[i], '\r'))
}

/// The status a `Status:` line gives: its first word, as a `u16`.
pub open spec fn status_of_line(l: Seq<char>) -> Option<nat> {
    if crate::text::starts_with(l, "Status:"@) {
        crate::text::parse_unsigned(split_char(trim(l.skip(7)), ' ')[0], 65535)
    } else {
        None
    }
}

/// The answer's status: that of the last `Status:` line with a number, else 200.
pub open spec fn cgi_status(ls: Seq<Seq<char>>) -> nat
    decreases ls.len(),
{
    if ls.len() == 0 {
        200
    } else {
        match status_of_line(ls.last()) {
            Some(c) => c,
            None => cgi_status(ls.drop_last()),
        }
    }
}

/// The trimmed text after the last line that starts with `name`.
pub open spec fn cgi_field(ls: Seq<Seq<char>>, name: Seq<char>) -> Option<Seq<char>>
    decreases ls.len(),
{
    if ls.len() == 0 {
        None
    } else if crate::text::starts_with(ls.last(), name) {
        Some(trim(ls.last().skip(name.len() as int)))
    } else {
        cgi_field(ls.drop_last(), name)
    }
}

fn trim_end_cr(l: &Vec<char>) -> (r: Vec<char>)
    ensures
        r@ == trim_end_char(l@, '\r'),
{
    let mut end: usize = l.len();
    assert(l@.take(l.len() as int) =~= l@);
    while end > 0 && l[end - 1] == '\r'
        invariant
            end <= l.len(),
            trim_end_char(l@, '\r') == trim_end_char(l@.take(end as int), '\r'),
        decreases end,
    {
        assert(l@.take(end as int).drop_last() =~= l@.take(end - 1));
        end -= 1;
    }
    let r = slice_vec(l, 0, end);
    assert(r@ =~= l@.take(end as int));
    r
}

fn field_after(l: &Vec<char>, name: &str) -> (r: Option<Vec<char>>)
    ensures
        crate::text::starts_with(l@, name@) ==> (r matches Some(v) && v@ == trim(l@.skip(name@.len() as int))),
        !crate::text::starts_with(l@, name@) ==> r is None,
{
    let n = chars_of(name);
    if crate::text::vec_starts_with(l, &n) {
        let rest = slice_vec(l, n.len(), l.len());
        assert(rest@ =~= l@.skip(n@.len() as int));
        Some(trim_chars(&rest))
    } else {
        None
    }
}

/// Reads a CGI answer: the header block, then the body.
pub fn parse_cgi_output(raw: Vec<u8>) -> (out: PhpOut)
    ensures
        out.status == cgi_status(head_lines(raw@)),
        match out.location {
            Some(l) => cgi_field(head_lines(raw@), "Location:"@) == Some(l@),
            None => cgi_field(head_lines(raw@), "Location:"@) is None,
        },
        match out.content_type {
            Some(c) => cgi_field(head_lines(raw@), "Content-type:"@) == Some(c@),
            None => cgi_field(head_lines(raw@), "Content-type:"@) is None,
        },
        out.body@ == raw@.skip(head_end(raw@)),
{
    let crlf2: Vec<u8> = vec![13u8, 10u8, 13u8, 10u8];
    let lf2: Vec<u8> = vec![10u8, 10u8];
    assert(crlf2@ =~= seq![13u8, 10u8, 13u8, 10u8]);
    assert(lf2@ =~= seq![10u8, 10u8]);
    proof {
        lemma_find_bytes(raw@, crlf2@);
        lemma_find_bytes(raw@, lf2@);
    }
    let raw_len = raw.len();
    let end: usize = match find_bytes_exec(&raw, &crlf2) {
        Some(i) => i + 4,
        None => match find_bytes_exec(&raw, &lf2) {
            Some(i) => i + 2,
            None => 0,
        },
    };
    let mut head_bytes: Vec<u8> = Vec::new();
    let mut i: usize = 0;
    while i < end
        invariant
            end <= raw@.len(),
            i <= end,
            head_bytes@ == raw@.take(i as int),
        decreases end - i,
    {
        head_bytes.push(raw[i]);
        i += 1;
        assert(head_bytes@ =~= raw@.take(i as int));
    }
    let head = crate::cache::utf8_lossy(head_bytes.as_slice());
    let ls = crate::text::lines_of(&chars_of(head.as_str()));
    let ghost all = head_lines(raw@);
    let mut status: u16 = 200;
    let mut location: Option<String> = None;
    let mut ctype: Option<String> = None;
    let mut k: usize = 0;
    while k < ls.len()
        invariant
            k <= ls@.len() == all.len(),
            all == head_lines(raw@),
            forall|j: int| 0 <= j < ls@.len() ==> trim_end_char((#[trigger] ls@[j])@, '\r') == all[j],
            status == cgi_status(all.take(k as int)),
            match location {
                Some(l) => cgi_field(all.take(k as int), "Location:"@) == Some(l@),
                None => cgi_field(all.take(k as int), "Location:"@) is None,
            },
            match ctype {
                Some(c) => cgi_field(all.take(k as int), "Content-type:"@) == Some(c@),
                None => cgi_field(all.take(k as int), "Content-type:"@) is None,
            },
        decreases ls.len() - k,
    {
        let l = trim_end_cr(&ls[k]);
        assert(all.take(k + 1).drop_last() =~= all.take(k as int));
        assert(all.take(k + 1).last() == l@);
        match field_after(&l, "Status:") {
            Some(rest) => {
                proof {
                    reveal_strlit("Status:");
                }
                let words = split_on(&rest, ' ');
                proof {
                    crate::text::lemma_split_char_len(rest@, ' ');
                }
                match crate::text::parse_u64_max(&words[0], 65535) {
                    Some(code) => {
                        status = code as u16;
                    },
                    None => {},
                }
            },
            None => {},
        }
        match field_after(&l, "Location:") {
            Some(v) => {
                location = Some(string_of(&v));
            },
            None => {},
        }
        match field_after(&l, "Content-type:") {
            Some(v) => {
                ctype = Some(string_of(&v));
            },
            None => {},
        }
        k += 1;
    }
    assert(all.take(ls.len() as int) =~= all);
    let mut body: Vec<u8> = Vec::new();
    let mut i: usize = end;
    while i < raw.len()
        invariant
            end <= i <= raw@.len(),
            body@ == raw@.subrange(end as int, i as int),
        decreases raw.len() - i,
    {
        body.push(raw[i]);
        i += 1;
        assert(body@ =~= raw@.subrange(end as int, i as int));
    }
    PhpOut { status, location, content_type: ctype, body }
}

// ================================================================ logs and the CGI environment

/// A line of a domain's access log: time, client, request line, status
/// and bytes sent.
pub fn access_log_line(ts: &str, ip: &str, method: &str, uri: &str, status: u16, bytes: u64) -> (r: String)
    ensures
        r@ == ts@ + seq![' '] + ip@ + " \""@ + method@ + seq![' '] + uri@ + " HTTP/1.1\" "@ + dec(status as nat)
            + seq![' '] + dec(bytes as nat) + seq!['\n'],
{
    let mut v = chars_of(ts);
    v.push(' ');
    crate::text::extend_str(&mut v, ip);
    crate::text::extend_str(&mut v, " \"");
    crate::text::extend_str(&mut v, method);
    v.push(' ');
    crate::text::extend_str(&mut v, uri);
    crate::text::extend_str(&mut v, " HTTP/1.1\" ");
    let st = dec_u64(status as u64);
    crate::text::extend_chars(&mut v, &st);
    v.push(' ');
    let b = dec_u64(bytes);
    crate::text::extend_chars(&mut v, &b);
    v.push('\n');
    string_of(&v)
}

/// A line of a domain's error log.
pub fn error_log_line(ts: &str, msg: &str) -> (r: String)
    ensures
        r@ == seq!['['] + ts@ + "] "@ + msg@ + seq!['\n'],
{
    let mut v: Vec<char> = Vec::new();
    v.push('[');
    crate::text::extend_str(&mut v, ts);
    crate::text::extend_str(&mut v, "] ");
    crate::text::extend_str(&mut v, msg);
    v.push('\n');
    assert(v@ =~= seq!['['] + ts@ + "] "@ + msg@ + seq!['\n']);
    string_of(&v)
}

/// The script's name: the request URI up to its `?`.
pub open spec fn script_name_spec(uri: Seq<char>) -> Seq<char> {
    split_char(uri, '?')[0]
}

/// The environment a PHP script runs with, in the order it is set: the
/// CGI variables of the request, and its content type twice where it has one.
pub open spec fn cgi_env_spec(
    file: Seq<char>,
    root: Seq<char>,
    host: Seq<char>,
    method: Seq<char>,
    uri: Seq<char>,
    query: Seq<char>,
    content_type: Option<Seq<char>>,
) -> Seq<(Seq<char>, Seq<char>)> {
    let base = seq![
        ("REDIRECT_STATUS"@, "1"@),
        ("SCRIPT_FILENAME"@, file),
        ("SCRIPT_NAME"@, script_name_spec(uri)),
        ("DOCUMENT_ROOT"@, root),
        ("SERVER_NAME"@, host),
        ("SERVER_ADDR"@, "127.0.0.1"@),
        ("SERVER_PORT"@, "8080"@),
        ("SERVER_PROTOCOL"@, "HTTP/1.1"@),
        ("REQUEST_METHOD"@, method),
        ("REQUEST_URI"@, uri),
        ("QUERY_STRING"@, query),
        ("HTTP_HOST"@, host),
        ("REMOTE_ADDR"@, "127.0.0.1"@),
    ];
    match content_type {
        Some(ct) => base + seq![("CONTENT_TYPE"@, ct), ("HTTP_CONTENT_TYPE"@, ct)],
        None => base,
    }
}

fn env_push(v: &mut Vec<(String, String)>, k: &str, val: &str)
    ensures
        final(v)@.map_values(|p: (String, String)| (p.0@, p.1@)) == old(v)@.map_values(
            |p: (String, String)| (p.0@, p.1@),
        ).push((k@, val@)),
{
    let ghost before = v@.map_values(|p: (String, String)| (p.0@, p.1@));
    v.push((k.to_string(), val.to_string()));
    assert(v@.map_values(|p: (String, String)| (p.0@, p.1@)) =~= before.push((k@, val@)));
}

pub fn cgi_environment(
    file: &str,
    root: &str,
    host: &str,
    method: &str,
    uri: &str,
    query: &str,
    content_type: Option<&str>,
) -> (r: Vec<(String, String)>)
    ensures
        r@.map_values(|p: (String, String)| (p.0@, p.1@)) == cgi_env_spec(
            file@,
            root@,
            host@,
            method@,
            uri@,
            query@,
            match content_type {
                Some(c) => Some(c@),
                None => None,
            },
        ),
{
    let parts = split_on(&chars_of(uri), '?');
    proof {
        crate::text::lemma_split_char_len(uri@, '?');
    }
    let script = string_of(&parts[0]);
    let mut v: Vec<(String, String)> = Vec::new();
    env_push(&mut v, "REDIRECT_STATUS", "1");
    env_push(&mut v, "SCRIPT_FILENAME", file);
    env_push(&mut v, "SCRIPT_NAME", script.as_str());
    env_push(&mut v, "DOCUMENT_ROOT", root);
    env_push(&mut v, "SERVER_NAME", host);
    env_push(&mut v, "SERVER_ADDR", "127.0.0.1");
    env_push(&mut v, "SERVER_PORT", "8080");
    env_push(&mut v, "SERVER_PROTOCOL", "HTTP/1.1");
    env_push(&mut v, "REQUEST_METHOD", method);
    env_push(&mut v, "REQUEST_URI", uri);
    env_push(&mut v, "QUERY_STRING", query);
    env_push(&mut v, "HTTP_HOST", host);
    env_push(&mut v, "REMOTE_ADDR", "127.0.0.1");
    match content_type {
        Some(ct) => {
            env_push(&mut v, "CONTENT_TYPE", ct);
            env_push(&mut v, "HTTP_CONTENT_TYPE", ct);
        },
        None => {},
    }
    let ghost want = cgi_env_spec(
        file@,
        root@,
        host@,
        method@,
        uri@,
        query@,
        match content_type {
            Some(c) => Some(c@),
            None => None,
        },
    );
    assert(v@.map_values(|p: (String, String)| (p.0@, p.1@)) =~= want);
    v
}

} // verus!
