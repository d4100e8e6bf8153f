//! Fields of an installed item's manifest, read line by line, and the
//! manifest's file name.

use vstd::prelude::*;
use crate::text::{chars_of, trim, trimmed_chars, eq_ci, chars_eq_ignore_case, parse_u64_chars, parse_u64_spec, decimal_chars, decimal, string_of};
use crate::lines::{line_pair, clean_value, lines_of, lines_view, split_lines, line_pair_bounds, clean_chars, range_is};

verus! {

/// The manifest file name prefix.
pub const MANIFEST_PREFIX: &'static str = "appmanifest_";

/// The manifest file name suffix.
pub const MANIFEST_SUFFIX: &'static str = ".acf";

/// The item identifier in a manifest file name `appmanifest_<id>.acf`.
pub open spec fn manifest_app_id_spec(name: Seq<char>) -> Option<u64> {
    let p = MANIFEST_PREFIX@;
    let x = MANIFEST_SUFFIX@;
    if name.len() >= p.len() + x.len() && name.subrange(0, p.len() as int) == p && name.subrange(
        name.len() - x.len(),
        name.len() as int,
    ) == x {
        parse_u64_spec(name.subrange(p.len() as int, name.len() - x.len()))
    } else {
        None
    }
}

/// Reads the item identifier out of a manifest file name.
pub fn parse_steam_manifest_app_id(file_name: &str) -> (r: Option<u64>)
    ensures
        r == manifest_app_id_spec(file_name@),
{
    let s = chars_of(file_name);
    let p = chars_of(MANIFEST_PREFIX);
    let x = chars_of(MANIFEST_SUFFIX);
    if s.len() < p.len() || s.len() - p.len() < x.len() {
        return None;
    }
    let end = s.len() - x.len();
    if !range_is(s.as_slice(), 0, p.len(), MANIFEST_PREFIX) {
        return None;
    }
    if !range_is(s.as_slice(), end, s.len(), MANIFEST_SUFFIX) {
        return None;
    }
    let mut mid: Vec<char> = Vec::new();
    let mut i = p.len();
    while i < end
        invariant
            p@.len() <= i <= end <= s@.len(),
            mid@ == s@.subrange(p@.len() as int, i as int),
        decreases end - i,
    {
        mid.push(s[i]);
        i = i + 1;
        assert(mid@ =~= s@.subrange(p@.len() as int, i as int));
    }
    parse_u64_chars(mid.as_slice())
}

/// The manifest file name of an item.
pub open spec fn manifest_file_name_spec(app_id: u64) -> Seq<char> {
    MANIFEST_PREFIX@ + decimal(app_id as nat) + MANIFEST_SUFFIX@
}

/// Writes the manifest file name `appmanifest_<id>.acf` of an item.
pub fn steam_manifest_file_name(app_id: u64) -> (r: String)
    ensures
        r@ == manifest_file_name_spec(app_id),
{
    let mut v = chars_of(MANIFEST_PREFIX);
    let mut d = decimal_chars(app_id);
    let mut x = chars_of(MANIFEST_SUFFIX);
    v.append(&mut d);
    v.append(&mut x);
    string_of(v.as_slice())
}

/// The cleaned value of the first line whose key matches `key` (ignoring
/// ASCII case) and whose
/// value is non-empty once cleaned.
pub open spec fn first_value(lines: Seq<Seq<char>>, key: Seq<char>) -> Option<Seq<char>>
    decreases lines.len(),
{
    if lines.len() == 0 {
        None
    } else {
        match line_pair(lines[0]) {
            Some(p) => if eq_ci(p.0, key) && p.1.len() > 0 && clean_value(p.1).len() > 0 {
                Some(clean_value(p.1))
            } else {
                first_value(lines.drop_first(), key)
            },
            None => first_value(lines.drop_first(), key),
        }
    }
}

/// The number in the first line whose key matches `key` (ignoring ASCII
/// case) and whose
/// cleaned value is a number.
pub open spec fn first_number(lines: Seq<Seq<char>>, key: Seq<char>) -> Option<u64>
    decreases lines.len(),
{
    if lines.len() == 0 {
        None
    } else {
        match line_pair(lines[0]) {
            Some(p) => if eq_ci(p.0, key) && p.1.len() > 0 && parse_u64_spec(clean_value(p.1)) is Some {
                parse_u64_spec(clean_value(p.1))
            } else {
                first_number(lines.drop_first(), key)
            },
            None => first_number(lines.drop_first(), key),
        }
    }
}

/// The cleaned value of the first line whose key matches `key` ignoring
/// ASCII case; none where that value is empty.
pub open spec fn field_value(lines: Seq<Seq<char>>, key: Seq<char>) -> Option<Seq<char>>
    decreases lines.len(),
{
    if lines.len() == 0 {
        None
    } else {
        match line_pair(lines[0]) {
            Some(p) => if eq_ci(p.0, key) {
                if clean_value(p.1).len() == 0 {
                    None
                } else {
                    Some(clean_value(p.1))
                }
            } else {
                field_value(lines.drop_first(), key)
            },
            None => field_value(lines.drop_first(), key),
        }
    }
}

pub open spec fn string_field_spec(contents: Seq<char>, field: Seq<char>) -> Option<Seq<char>> {
    let f = trim(field);
    if f.len() == 0 {
        None
    } else {
        field_value(lines_of(contents), f)
    }
}

pub open spec fn u64_field_spec(contents: Seq<char>, field: Seq<char>) -> Option<u64> {
    match string_field_spec(contents, field) {
        Some(v) => parse_u64_spec(v),
        None => None,
    }
}

pub proof fn lemma_lines_step(lv: Seq<Seq<char>>, i: int)
    requires
        0 <= i < lv.len(),
    ensures
        lv.subrange(i, lv.len() as int).drop_first() == lv.subrange(i + 1, lv.len() as int),
        lv.subrange(i, lv.len() as int)[0] == lv[i],
        lv.subrange(i, lv.len() as int).len() > 0,
{
    assert(lv.subrange(i, lv.len() as int).drop_first() =~= lv.subrange(i + 1, lv.len() as int));
}

/// Whether `k[lo..hi]` spells `lit`, ignoring ASCII case.
fn range_is_ci(k: &[char], lo: usize, hi: usize, lit: &str) -> (r: bool)
    requires
        lo <= hi <= k@.len(),
    ensures
        r == eq_ci(k@.subrange(lo as int, hi as int), lit@),
{
    let part = crate::text::chars_of_range(k, lo, hi);
    let l = chars_of(lit);
    chars_eq_ignore_case(part.as_slice(), l.as_slice())
}

/// The install directory name: the first non-empty `installdir` value.
pub fn parse_steam_manifest_install_directory(manifest_contents: &str) -> (r: Result<String, String>)
    ensures
        match first_value(lines_of(manifest_contents@), "installdir"@) {
            Some(v) => r is Ok && r->Ok_0@ == v,
            None => r matches Err(e) && e@
                == "Could not determine install directory from Steam app manifest."@,
        },
{
    let s = chars_of(manifest_contents);
    let lines = split_lines(&s);
    let ghost lv = lines_view(lines@);
    let mut i: usize = 0;
    assert(lv.subrange(0, lv.len() as int) =~= lv);
    while i < lines.len()
        invariant
            0 <= i <= lines@.len(),
            lv == lines_view(lines@),
            lv.len() == lines@.len(),
            first_value(lv.subrange(i as int, lv.len() as int), "installdir"@) == first_value(
                lines_of(manifest_contents@),
                "installdir"@,
            ),
        decreases lines@.len() - i,
    {
        proof {
            lemma_lines_step(lv, i as int);
        }
        let line = lines[i].as_slice();
        assert(lv[i as int] == line@);
        if let Some((k0, k1, v0, v1)) = line_pair_bounds(line) {
            if range_is_ci(line, k0, k1, "installdir") && v1 > v0 {
                let v = clean_chars(line, v0, v1);
                if v.len() > 0 {
                    return Ok(string_of(v.as_slice()));
                }
            }
        }
        i = i + 1;
    }
    Err(String::from_str("Could not determine install directory from Steam app manifest."))
}

/// The size on disk: the first `SizeOnDisk` value that is a number.
pub fn parse_steam_manifest_size_on_disk_bytes(manifest_contents: &str) -> (r: Option<u64>)
    ensures
        r == first_number(lines_of(manifest_contents@), "SizeOnDisk"@),
{
    let s = chars_of(manifest_contents);
    let lines = split_lines(&s);
    let ghost lv = lines_view(lines@);
    let mut i: usize = 0;
    assert(lv.subrange(0, lv.len() as int) =~= lv);
    while i < lines.len()
        invariant
            0 <= i <= lines@.len(),
            lv == lines_view(lines@),
            lv.len() == lines@.len(),
            first_number(lv.subrange(i as int, lv.len() as int), "SizeOnDisk"@) == first_number(
                lines_of(manifest_contents@),
                "SizeOnDisk"@,
            ),
        decreases lines@.len() - i,
    {
        proof {
            lemma_lines_step(lv, i as int);
        }
        let line = lines[i].as_slice();
        assert(lv[i as int] == line@);
        if let Some((k0, k1, v0, v1)) = line_pair_bounds(line) {
            if range_is_ci(line, k0, k1, "SizeOnDisk") && v1 > v0 {
                let v = clean_chars(line, v0, v1);
                if let Some(n) = parse_u64_chars(v.as_slice()) {
                    return Some(n);
                }
            }
        }
        i = i + 1;
    }
    None
}

/// The value of the first line whose key matches `field_name` (trimmed)
/// ignoring ASCII case, decoded and trimmed; none where it is empty, or
/// where the field name is blank.
pub fn parse_steam_manifest_string_field(manifest_contents: &str, field_name: &str) -> (r: Option<
    String,
>)
    ensures
        match string_field_spec(manifest_contents@, field_name@) {
            Some(v) => r is Some && r->0@ == v,
            None => r is None,
        },
{
    let f = trimmed_chars(field_name);
    if f.len() == 0 {
        return None;
    }
    let s = chars_of(manifest_contents);
    let lines = split_lines(&s);
    let ghost lv = lines_view(lines@);
    let mut i: usize = 0;
    assert(lv.subrange(0, lv.len() as int) =~= lv);
    while i < lines.len()
        invariant
            0 <= i <= lines@.len(),
            lv == lines_view(lines@),
            lv.len() == lines@.len(),
            f@ == trim(field_name@),
            f@.len() > 0,
            field_value(lv.subrange(i as int, lv.len() as int), f@) == string_field_spec(
                manifest_contents@,
                field_name@,
            ),
        decreases lines@.len() - i,
    {
        proof {
            lemma_lines_step(lv, i as int);
        }
        let line = lines[i].as_slice();
        assert(lv[i as int] == line@);
        if let Some((k0, k1, v0, v1)) = line_pair_bounds(line) {
            let key = crate::text::chars_of_range(line, k0, k1);
            if chars_eq_ignore_case(key.as_slice(), f.as_slice()) {
                let v = clean_chars(line, v0, v1);
                if v.len() == 0 {
                    return None;
                }
                return Some(string_of(v.as_slice()));
            }
        }
        i = i + 1;
    }
    None
}

/// The number in a field read as `parse_steam_manifest_string_field` does.
pub fn parse_steam_manifest_u64_field(manifest_contents: &str, field_name: &str) -> (r: Option<u64>)
    ensures
        r == u64_field_spec(manifest_contents@, field_name@),
{
    match parse_steam_manifest_string_field(manifest_contents, field_name) {
        Some(v) => {
            let c = chars_of(v.as_str());
            parse_u64_chars(c.as_slice())
        },
        None => None,
    }
}

/// The state flags and byte counters of a manifest.
pub struct SteamManifestDownloadProgressSnapshot {
    pub state_flags: Option<u64>,
    pub bytes_downloaded: Option<u64>,
    pub bytes_total: Option<u64>,
}

pub open spec fn or_else(a: Option<u64>, b: Option<u64>) -> Option<u64> {
    if a is Some {
        a
    } else {
        b
    }
}

/// Reads `StateFlags`, the downloaded bytes (`BytesDownloaded`, else
/// `BytesDownloadedOnCurrentRun`) and the total (`BytesToDownload`, else
/// `TotalDownloaded`).
pub fn parse_steam_manifest_download_progress(manifest_contents: &str) -> (r:
    SteamManifestDownloadProgressSnapshot)
    ensures
        r.state_flags == u64_field_spec(manifest_contents@, "StateFlags"@),
        r.bytes_downloaded == or_else(
            u64_field_spec(manifest_contents@, "BytesDownloaded"@),
            u64_field_spec(manifest_contents@, "BytesDownloadedOnCurrentRun"@),
        ),
        r.bytes_total == or_else(
            u64_field_spec(manifest_contents@, "BytesToDownload"@),
            u64_field_spec(manifest_contents@, "TotalDownloaded"@),
        ),
{
    let bytes_total = match parse_steam_manifest_u64_field(manifest_contents, "BytesToDownload") {
        Some(v) => Some(v),
        None => parse_steam_manifest_u64_field(manifest_contents, "TotalDownloaded"),
    };
    let bytes_downloaded = match parse_steam_manifest_u64_field(manifest_contents, "BytesDownloaded") {
        Some(v) => Some(v),
        None => parse_steam_manifest_u64_field(manifest_contents, "BytesDownloadedOnCurrentRun"),
    };
    SteamManifestDownloadProgressSnapshot {
        state_flags: parse_steam_manifest_u64_field(manifest_contents, "StateFlags"),
        bytes_downloaded,
        bytes_total,
    }
}

} // verus!
