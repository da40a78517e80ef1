//! Serializing the repository documents as JSON text.
//!
//! The emitters build the documents of the persisted formats: the
//! config, the index catalogue, and the snapshot.  Each emitter's
//! contract ties its output to a specification function that defines the
//! document's exact text.

use vstd::prelude::*;

use crate::configfile::ConfigFile;
use crate::id::{hex_of_bytes, Id};
use crate::indexfile::{IndexBlob, IndexFile, IndexPack};
use crate::keyfile::KeyFile;
use crate::snapshotfile::{DeleteOption, SnapshotFile, SnapshotSummary, StringList};
use crate::time::Time;
use crate::tree::{Node, Tree};

verus! {

/// The minimal decimal rendering of a 64-bit value.
pub open spec fn spec_dec_u64(v: u64) -> Seq<char>
    decreases v,
{
    if v < 10 {
        seq![(('0' as u8 + v as u8) as u8) as char]
    } else {
        spec_dec_u64(v / 10).push((('0' as u8 + (v % 10) as u8) as u8) as char)
    }
}

/// Render a 64-bit value as minimal decimal digits.
pub fn dec_u64(v: u64) -> (r: Vec<char>)
    ensures
        r@ == spec_dec_u64(v),
    decreases v,
{
    if v < 10 {
        let mut out: Vec<char> = Vec::new();
        out.push((('0' as u8 + v as u8) as u8) as char);
        proof {
            assert(out@ =~= seq![(('0' as u8 + v as u8) as u8) as char]);
        }
        out
    } else {
        let mut out = dec_u64(v / 10);
        out.push((('0' as u8 + (v % 10) as u8) as u8) as char);
        out
    }
}

/// A value rendered with leading zeroes to a fixed width of two.
pub open spec fn spec_dec_pad2(v: u64) -> Seq<char> {
    if v < 10 {
        seq!['0'] + spec_dec_u64(v)
    } else {
        spec_dec_u64(v)
    }
}

/// Render a value with leading zeroes to a width of two.
pub fn dec_pad2(v: u64) -> (r: Vec<char>)
    ensures
        r@ == spec_dec_pad2(v),
{
    if v < 10 {
        let mut out: Vec<char> = Vec::new();
        out.push('0');
        let mut d = dec_u64(v);
        out.append(&mut d);
        proof {
            assert(out@ =~= seq!['0'] + spec_dec_u64(v));
        }
        out
    } else {
        dec_u64(v)
    }
}

/// A value rendered with leading zeroes to a fixed width of four.
pub open spec fn spec_dec_pad4(v: u64) -> Seq<char> {
    if v < 10 {
        seq!['0', '0', '0'] + spec_dec_u64(v)
    } else if v < 100 {
        seq!['0', '0'] + spec_dec_u64(v)
    } else if v < 1000 {
        seq!['0'] + spec_dec_u64(v)
    } else {
        spec_dec_u64(v)
    }
}

/// Render a value with leading zeroes to a width of four.
pub fn dec_pad4(v: u64) -> (r: Vec<char>)
    ensures
        r@ == spec_dec_pad4(v),
{
    let mut out: Vec<char> = Vec::new();
    if v < 10 {
        out.push('0');
        out.push('0');
        out.push('0');
    } else if v < 100 {
        out.push('0');
        out.push('0');
    } else if v < 1000 {
        out.push('0');
    }
    let mut d = dec_u64(v);
    out.append(&mut d);
    proof {
        assert(out@ =~= spec_dec_pad4(v));
    }
    out
}

/// Append a literal to the output.
pub fn append_str(out: &mut Vec<char>, s: &str)
    ensures
        final(out)@ == old(out)@ + s@,
{
    let n = s.unicode_len();
    let mut i: usize = 0;
    while i < n
        invariant
            n == s@.len(),
            i <= n,
            out@ == old(out)@ + s@.take(i as int),
        decreases n - i,
    {
        let c = s.get_char(i);
        out.push(c);
        proof {
            assert(out@ =~= old(out)@ + s@.take(i as int + 1));
        }
        i += 1;
    }
    proof {
        assert(s@.take(s@.len() as int) =~= s@);
    }
}

/// Append character data to the output.
pub fn append_chars(out: &mut Vec<char>, s: &Vec<char>)
    ensures
        final(out)@ == old(out)@ + s@,
{
    let mut i: usize = 0;
    while i < s.len()
        invariant
            i <= s@.len(),
            out@ == old(out)@ + s@.take(i as int),
        decreases s@.len() - i,
    {
        out.push(s[i]);
        proof {
            assert(out@ =~= old(out)@ + s@.take(i as int + 1));
        }
        i += 1;
    }
    proof {
        assert(s@.take(s@.len() as int) =~= s@);
    }
}

/// An id as a quoted JSON string of hex digits.
pub open spec fn spec_json_id(id: Seq<u8>) -> Seq<char> {
    seq!['"'] + hex_of_bytes(id) + seq!['"']
}

/// Append an id as a quoted hex string.
pub fn append_id(out: &mut Vec<char>, id: &Id)
    ensures
        final(out)@ == old(out)@ + spec_json_id(id@),
{
    out.push('"');
    let mut h = id.to_hex();
    out.append(&mut h);
    out.push('"');
    proof {
        assert(out@ =~= old(out)@ + spec_json_id(id@));
    }
}

/// A time as a quoted RFC 3339 timestamp.
pub open spec fn spec_json_time(t: Time) -> Seq<char> {
    seq!['"'] + spec_dec_pad4(t.year as u64) + seq!['-'] + spec_dec_pad2(t.month as u64)
        + seq!['-'] + spec_dec_pad2(t.day as u64) + seq!['T'] + spec_dec_pad2(t.hour as u64)
        + seq![':'] + spec_dec_pad2(t.min as u64) + seq![':'] + spec_dec_pad2(t.sec as u64)
        + seq!['Z', '"']
}

/// Append a time as a quoted timestamp.
pub fn append_time(out: &mut Vec<char>, t: &Time)
    ensures
        final(out)@ == old(out)@ + spec_json_time(*t),
{
    out.push('"');
    let mut y = dec_pad4(t.year as u64);
    out.append(&mut y);
    out.push('-');
    let mut mo = dec_pad2(t.month as u64);
    out.append(&mut mo);
    out.push('-');
    let mut d = dec_pad2(t.day as u64);
    out.append(&mut d);
    out.push('T');
    let mut h = dec_pad2(t.hour as u64);
    out.append(&mut h);
    out.push(':');
    let mut mi = dec_pad2(t.min as u64);
    out.append(&mut mi);
    out.push(':');
    let mut s = dec_pad2(t.sec as u64);
    out.append(&mut s);
    out.push('Z');
    out.push('"');
    proof {
        assert(out@ =~= old(out)@ + spec_json_time(*t));
    }
}

/// The config document's text.
pub open spec fn spec_json_config(c: ConfigFile) -> Seq<char> {
    "{\"version\":"@ + spec_dec_u64(c.version as u64) + ",\"id\":"@ + spec_json_id(c.id@)
        + ",\"chunker_polynomial\":\""@ + c.chunker_polynomial@ + "\"}"@
}

/// Serialize the config document.
pub fn config_json(c: &ConfigFile) -> (r: Vec<char>)
    ensures
        r@ == spec_json_config(*c),
{
    let mut out: Vec<char> = Vec::new();
    append_str(&mut out, "{\"version\":");
    let mut v = dec_u64(c.version as u64);
    out.append(&mut v);
    append_str(&mut out, ",\"id\":");
    append_id(&mut out, &c.id);
    append_str(&mut out, ",\"chunker_polynomial\":\"");
    append_chars(&mut out, &c.chunker_polynomial);
    append_str(&mut out, "\"}");
    proof {
        assert(out@ =~= spec_json_config(*c));
    }
    out
}

/// One blob entry's text.
pub open spec fn spec_json_blob(b: IndexBlob) -> Seq<char> {
    "{\"id\":"@ + spec_json_id(b.id@) + ",\"type\":"@ + (if b.tpe is Tree {
        "\"tree\""@
    } else {
        "\"data\""@
    }) + ",\"offset\":"@ + spec_dec_u64(b.offset as u64) + ",\"length\":"@ + spec_dec_u64(
        b.length as u64,
    ) + (match b.uncompressed_length {
        Option::Some(l) => ",\"uncompressed_length\":"@ + spec_dec_u64(l as u64),
        Option::None => Seq::<char>::empty(),
    }) + "}"@
}

/// Append one blob entry.
pub fn append_blob(out: &mut Vec<char>, b: &IndexBlob)
    ensures
        final(out)@ == old(out)@ + spec_json_blob(*b),
{
    append_str(out, "{\"id\":");
    append_id(out, &b.id);
    append_str(out, ",\"type\":");
    if matches!(b.tpe, crate::blob::BlobType::Tree) {
        append_str(out, "\"tree\"");
    } else {
        append_str(out, "\"data\"");
    }
    append_str(out, ",\"offset\":");
    let mut o = dec_u64(b.offset as u64);
    out.append(&mut o);
    append_str(out, ",\"length\":");
    let mut l = dec_u64(b.length as u64);
    out.append(&mut l);
    match b.uncompressed_length {
        Some(ul) => {
            append_str(out, ",\"uncompressed_length\":");
            let mut u = dec_u64(ul as u64);
            out.append(&mut u);
        },
        None => {},
    }
    append_str(out, "}");
    proof {
        assert(out@ =~= old(out)@ + spec_json_blob(*b));
    }
}

/// A list of blob entries, comma separated.
pub open spec fn spec_json_blob_list_upto(s: Seq<IndexBlob>, i: int) -> Seq<char>
    decreases i,
{
    if i <= 0 || i > s.len() {
        Seq::empty()
    } else if i == 1 {
        spec_json_blob(s[0])
    } else {
        spec_json_blob_list_upto(s, i - 1) + seq![','] + spec_json_blob(s[i - 1])
    }
}

/// One pack entry's text.
pub open spec fn spec_json_pack(p: IndexPack) -> Seq<char> {
    "{\"id\":"@ + spec_json_id(p.id@) + (match p.time {
        Option::Some(t) => ",\"time\":"@ + spec_json_time(t),
        Option::None => Seq::<char>::empty(),
    }) + (match p.size {
        Option::Some(s) => ",\"size\":"@ + spec_dec_u64(s as u64),
        Option::None => Seq::<char>::empty(),
    }) + ",\"blobs\":["@ + spec_json_blob_list_upto(p.blobs@, p.blobs@.len() as int) + "]}"@
}

/// Append one pack entry.
pub fn append_pack(out: &mut Vec<char>, p: &IndexPack)
    ensures
        final(out)@ == old(out)@ + spec_json_pack(*p),
{
    append_str(out, "{\"id\":");
    append_id(out, &p.id);
    match &p.time {
        Some(t) => {
            append_str(out, ",\"time\":");
            append_time(out, t);
        },
        None => {},
    }
    match p.size {
        Some(s) => {
            append_str(out, ",\"size\":");
            let mut v = dec_u64(s as u64);
            out.append(&mut v);
        },
        None => {},
    }
    append_str(out, ",\"blobs\":[");
    let ghost mid = out@;
    let mut i: usize = 0;
    proof {
        assert(out@ =~= mid + spec_json_blob_list_upto(p.blobs@, 0));
    }
    while i < p.blobs.len()
        invariant
            i <= p.blobs@.len(),
            out@ == mid + spec_json_blob_list_upto(p.blobs@, i as int),
        decreases p.blobs@.len() - i,
    {
        if i > 0 {
            out.push(',');
        }
        append_blob(out, &p.blobs[i]);
        proof {
            if i == 0 {
                assert(out@ =~= mid + spec_json_blob_list_upto(p.blobs@, 1));
            } else {
                assert(out@ =~= mid + spec_json_blob_list_upto(p.blobs@, i as int + 1));
            }
        }
        i += 1;
    }
    append_str(out, "]}");
    proof {
        assert(out@ =~= old(out)@ + spec_json_pack(*p));
    }
}

/// A list of pack entries, comma separated; mirrors the blob list.
pub open spec fn spec_json_pack_list_upto(s: Seq<IndexPack>, i: int) -> Seq<char>
    decreases i,
{
    if i <= 0 || i > s.len() {
        Seq::empty()
    } else if i == 1 {
        spec_json_pack(s[0])
    } else {
        spec_json_pack_list_upto(s, i - 1) + seq![','] + spec_json_pack(s[i - 1])
    }
}

/// Append a pack list between brackets.
fn append_pack_list(out: &mut Vec<char>, packs: &Vec<IndexPack>)
    ensures
        final(out)@ == old(out)@ + seq!['['] + spec_json_pack_list_upto(
            packs@,
            packs@.len() as int,
        ) + seq![']'],
{
    out.push('[');
    let ghost mid = out@;
    let mut i: usize = 0;
    proof {
        assert(out@ =~= mid + spec_json_pack_list_upto(packs@, 0));
    }
    while i < packs.len()
        invariant
            i <= packs@.len(),
            out@ == mid + spec_json_pack_list_upto(packs@, i as int),
        decreases packs@.len() - i,
    {
        if i > 0 {
            out.push(',');
        }
        append_pack(out, &packs[i]);
        proof {
            if i == 0 {
                assert(out@ =~= mid + spec_json_pack_list_upto(packs@, 1));
            } else {
                assert(out@ =~= mid + spec_json_pack_list_upto(packs@, i as int + 1));
            }
        }
        i += 1;
    }
    out.push(']');
    proof {
        assert(out@ =~= old(out)@ + seq!['['] + spec_json_pack_list_upto(
            packs@,
            packs@.len() as int,
        ) + seq![']']);
    }
}

/// The index document's text: the live packs and the tombstoned packs.
pub open spec fn spec_json_index(f: IndexFile) -> Seq<char> {
    "{\"packs\":"@ + seq!['['] + spec_json_pack_list_upto(f.packs@, f.packs@.len() as int)
        + seq![']'] + ",\"packs_to_delete\":"@ + seq!['['] + spec_json_pack_list_upto(
        f.packs_to_delete@,
        f.packs_to_delete@.len() as int,
    ) + seq![']'] + "}"@
}

/// Serialize the index document.
pub fn index_json(f: &IndexFile) -> (r: Vec<char>)
    ensures
        r@ == spec_json_index(*f),
{
    let mut out: Vec<char> = Vec::new();
    append_str(&mut out, "{\"packs\":");
    append_pack_list(&mut out, &f.packs);
    append_str(&mut out, ",\"packs_to_delete\":");
    append_pack_list(&mut out, &f.packs_to_delete);
    append_str(&mut out, "}");
    proof {
        assert(out@ =~= spec_json_index(*f));
    }
    out
}


/// Characters that need no JSON escaping: printable, no quote, no
/// backslash.
pub open spec fn spec_plain_text(s: Seq<char>) -> bool {
    forall|i: int| 0 <= i < s.len() ==> ' ' <= #[trigger] s[i] <= '~' && s[i] != '"' && s[i] != '\\'
}

/// A quoted string list, comma separated.
pub open spec fn spec_json_strings_upto(s: Seq<Seq<char>>, i: int) -> Seq<char>
    decreases i,
{
    if i <= 0 || i > s.len() {
        Seq::empty()
    } else if i == 1 {
        seq!['"'] + s[0] + seq!['"']
    } else {
        spec_json_strings_upto(s, i - 1) + seq![','] + seq!['"'] + s[i - 1] + seq!['"']
    }
}

/// Append a bracketed, quoted string list.
fn append_strings(out: &mut Vec<char>, sl: &StringList)
    ensures
        final(out)@ == old(out)@ + seq!['['] + spec_json_strings_upto(sl@, sl@.len() as int)
            + seq![']'],
{
    out.push('[');
    let ghost mid = out@;
    let mut i: usize = 0;
    proof {
        assert(out@ =~= mid + spec_json_strings_upto(sl@, 0));
    }
    while i < sl.0.len()
        invariant
            i <= sl@.len(),
            sl@.len() == sl.0@.len(),
            out@ == mid + spec_json_strings_upto(sl@, i as int),
        decreases sl@.len() - i,
    {
        if i > 0 {
            out.push(',');
        }
        out.push('"');
        append_str(out, sl.0[i].as_str());
        out.push('"');
        proof {
            assert(sl@[i as int] == sl.0@[i as int]@);
            if i == 0 {
                assert(out@ =~= mid + spec_json_strings_upto(sl@, 1));
            } else {
                assert(out@ =~= mid + spec_json_strings_upto(sl@, i as int + 1));
            }
        }
        i += 1;
    }
    out.push(']');
    proof {
        assert(out@ =~= old(out)@ + seq!['['] + spec_json_strings_upto(sl@, sl@.len() as int)
            + seq![']']);
    }
}

/// One summary field: a comma, its name, and its count.
pub open spec fn spec_json_field(name: Seq<char>, v: u64) -> Seq<char> {
    seq![','] + seq!['"'] + name + seq!['"'] + seq![':'] + spec_dec_u64(v)
}

/// Append one summary field.
fn append_field(out: &mut Vec<char>, name: &str, v: u64)
    ensures
        final(out)@ == old(out)@ + spec_json_field(name@, v),
{
    out.push(',');
    out.push('"');
    append_str(out, name);
    out.push('"');
    out.push(':');
    let mut d = dec_u64(v);
    out.append(&mut d);
    proof {
        assert(out@ =~= old(out)@ + spec_json_field(name@, v));
    }
}

/// The summary object's text.
pub open spec fn spec_json_summary(s: SnapshotSummary) -> Seq<char> {
    "{\"backup_start\":"@ + spec_json_time(s.backup_start) + ",\"backup_end\":"@
        + spec_json_time(s.backup_end) + spec_json_field("files_new"@, s.files_new)
        + spec_json_field("files_changed"@, s.files_changed) + spec_json_field(
        "files_unmodified"@,
        s.files_unmodified,
    ) + spec_json_field("dirs_new"@, s.dirs_new) + spec_json_field("dirs_changed"@, s.dirs_changed)
        + spec_json_field("dirs_unmodified"@, s.dirs_unmodified) + spec_json_field(
        "data_blobs"@,
        s.data_blobs,
    ) + spec_json_field("tree_blobs"@, s.tree_blobs) + spec_json_field("data_added"@, s.data_added)
        + spec_json_field("data_added_packed"@, s.data_added_packed) + spec_json_field(
        "total_files_processed"@,
        s.total_files_processed,
    ) + spec_json_field("total_bytes_processed"@, s.total_bytes_processed) + "}"@
}

/// Append the summary object.
#[verifier::rlimit(100)]
fn append_summary(out: &mut Vec<char>, s: &SnapshotSummary)
    ensures
        final(out)@ == old(out)@ + spec_json_summary(*s),
{
    append_str(out, "{\"backup_start\":");
    append_time(out, &s.backup_start);
    append_str(out, ",\"backup_end\":");
    append_time(out, &s.backup_end);
    append_field(out, "files_new", s.files_new);
    append_field(out, "files_changed", s.files_changed);
    append_field(out, "files_unmodified", s.files_unmodified);
    append_field(out, "dirs_new", s.dirs_new);
    append_field(out, "dirs_changed", s.dirs_changed);
    append_field(out, "dirs_unmodified", s.dirs_unmodified);
    append_field(out, "data_blobs", s.data_blobs);
    append_field(out, "tree_blobs", s.tree_blobs);
    append_field(out, "data_added", s.data_added);
    append_field(out, "data_added_packed", s.data_added_packed);
    append_field(out, "total_files_processed", s.total_files_processed);
    append_field(out, "total_bytes_processed", s.total_bytes_processed);
    append_str(out, "}");
    proof {
        assert(out@ =~= old(out)@ + spec_json_summary(*s));
    }
}

/// The snapshot document's text.
pub open spec fn spec_json_snapshot(sn: SnapshotFile) -> Seq<char> {
    "{\"time\":"@ + spec_json_time(sn.time) + (match sn.parent {
        Option::Some(p) => ",\"parent\":"@ + spec_json_id(p@),
        Option::None => Seq::<char>::empty(),
    }) + ",\"tree\":"@ + spec_json_id(sn.tree@) + ",\"paths\":"@ + seq!['[']
        + spec_json_strings_upto(sn.paths@, sn.paths@.len() as int) + seq![']']
        + ",\"hostname\":\""@ + sn.hostname@ + "\",\"label\":\""@ + sn.label@
        + "\",\"tags\":"@ + seq!['['] + spec_json_strings_upto(sn.tags@, sn.tags@.len() as int)
        + seq![']'] + (match sn.delete {
        DeleteOption::NotSet => Seq::<char>::empty(),
        DeleteOption::Never => ",\"delete\":\"never\""@,
        DeleteOption::After(t) => ",\"delete\":{\"after\":"@ + spec_json_time(t) + "}"@,
    }) + (match sn.summary {
        Option::Some(s) => ",\"summary\":"@ + spec_json_summary(s),
        Option::None => Seq::<char>::empty(),
    }) + "}"@
}

/// Serialize the snapshot document.  The caller keeps names, labels and
/// tags to plain printable text, so no JSON escaping arises.
#[verifier::rlimit(100)]
pub fn snapshot_json(sn: &SnapshotFile) -> (r: Vec<char>)
    requires
        spec_plain_text(sn.hostname@),
        spec_plain_text(sn.label@),
    ensures
        r@ == spec_json_snapshot(*sn),
{
    let mut out: Vec<char> = Vec::new();
    append_str(&mut out, "{\"time\":");
    append_time(&mut out, &sn.time);
    match &sn.parent {
        Some(p) => {
            append_str(&mut out, ",\"parent\":");
            append_id(&mut out, p);
        },
        None => {},
    }
    append_str(&mut out, ",\"tree\":");
    append_id(&mut out, &sn.tree);
    append_str(&mut out, ",\"paths\":");
    append_strings(&mut out, &sn.paths);
    append_str(&mut out, ",\"hostname\":\"");
    append_str(&mut out, sn.hostname.as_str());
    append_str(&mut out, "\",\"label\":\"");
    append_str(&mut out, sn.label.as_str());
    append_str(&mut out, "\",\"tags\":");
    append_strings(&mut out, &sn.tags);
    match &sn.delete {
        DeleteOption::NotSet => {},
        DeleteOption::Never => {
            append_str(&mut out, ",\"delete\":\"never\"");
        },
        DeleteOption::After(t) => {
            append_str(&mut out, ",\"delete\":{\"after\":");
            append_time(&mut out, t);
            append_str(&mut out, "}");
        },
    }
    match &sn.summary {
        Some(s) => {
            append_str(&mut out, ",\"summary\":");
            append_summary(&mut out, s);
        },
        None => {},
    }
    append_str(&mut out, "}");
    proof {
        assert(out@ =~= spec_json_snapshot(*sn));
    }
    out
}


/// Bytes as a quoted hex string.
pub open spec fn spec_json_bytes(b: Seq<u8>) -> Seq<char> {
    seq!['"'] + hex_of_bytes(b) + seq!['"']
}

/// Append bytes as a quoted hex string.
fn append_bytes_hex(out: &mut Vec<char>, b: &Vec<u8>)
    ensures
        final(out)@ == old(out)@ + spec_json_bytes(b@),
{
    out.push('"');
    let mut h = crate::id::bytes_to_hex(b);
    out.append(&mut h);
    out.push('"');
    proof {
        assert(out@ =~= old(out)@ + spec_json_bytes(b@));
    }
}

/// The key file document's text.
pub open spec fn spec_json_keyfile(kf: KeyFile) -> Seq<char> {
    "{\"kdf\":\"scrypt\",\"log_n\":"@ + spec_dec_u64(kf.log_n as u64) + ",\"r\":"@
        + spec_dec_u64(kf.r as u64) + ",\"p\":"@ + spec_dec_u64(kf.p as u64) + ",\"salt\":"@
        + spec_json_bytes(kf.salt@) + ",\"data\":"@ + spec_json_bytes(kf.data@) + "}"@
}

/// Serialize the key file document.
pub fn keyfile_json(kf: &KeyFile) -> (r: Vec<char>)
    ensures
        r@ == spec_json_keyfile(*kf),
{
    let mut out: Vec<char> = Vec::new();
    append_str(&mut out, "{\"kdf\":\"scrypt\",\"log_n\":");
    let mut a = dec_u64(kf.log_n as u64);
    out.append(&mut a);
    append_str(&mut out, ",\"r\":");
    let mut b = dec_u64(kf.r as u64);
    out.append(&mut b);
    append_str(&mut out, ",\"p\":");
    let mut c = dec_u64(kf.p as u64);
    out.append(&mut c);
    append_str(&mut out, ",\"salt\":");
    append_bytes_hex(&mut out, &kf.salt);
    append_str(&mut out, ",\"data\":");
    append_bytes_hex(&mut out, &kf.data);
    append_str(&mut out, "}");
    proof {
        assert(out@ =~= spec_json_keyfile(*kf));
    }
    out
}


/// A node kind's name in the document.
pub open spec fn spec_json_node_type(t: crate::tree::NodeType) -> Seq<char> {
    match t {
        crate::tree::NodeType::File => "\"file\""@,
        crate::tree::NodeType::Dir => "\"dir\""@,
        crate::tree::NodeType::Symlink => "\"symlink\""@,
        crate::tree::NodeType::Device => "\"dev\""@,
        crate::tree::NodeType::Chardev => "\"chardev\""@,
        crate::tree::NodeType::Fifo => "\"fifo\""@,
        crate::tree::NodeType::Socket => "\"socket\""@,
    }
}

/// An optional named timestamp field.
pub open spec fn spec_json_opt_time(name: Seq<char>, t: Option<Time>) -> Seq<char> {
    match t {
        Option::Some(tt) => seq![','] + seq!['"'] + name + seq!['"'] + seq![':'] + spec_json_time(
            tt,
        ),
        Option::None => Seq::<char>::empty(),
    }
}

/// Append an optional named timestamp field.
fn append_opt_time(out: &mut Vec<char>, name: &str, t: &Option<Time>)
    ensures
        final(out)@ == old(out)@ + spec_json_opt_time(name@, *t),
{
    match t {
        Some(tt) => {
            out.push(',');
            out.push('"');
            append_str(out, name);
            out.push('"');
            out.push(':');
            append_time(out, tt);
            proof {
                assert(out@ =~= old(out)@ + spec_json_opt_time(name@, *t));
            }
        },
        None => {},
    }
}

/// A quoted id list, comma separated.
pub open spec fn spec_json_ids_upto(s: Seq<Id>, i: int) -> Seq<char>
    decreases i,
{
    if i <= 0 || i > s.len() {
        Seq::empty()
    } else if i == 1 {
        spec_json_id(s[0]@)
    } else {
        spec_json_ids_upto(s, i - 1) + seq![','] + spec_json_id(s[i - 1]@)
    }
}

/// A node's name, kind and metadata fields.
pub open spec fn spec_json_node_head(n: Node) -> Seq<char> {
    "{\"name\":\""@ + n.name@ + "\",\"type\":"@ + spec_json_node_type(n.node_type)
        + spec_json_opt_time("mtime"@, n.meta.mtime) + spec_json_opt_time("ctime"@, n.meta.ctime)
        + spec_json_opt_time("atime"@, n.meta.atime) + spec_json_field("uid"@, n.meta.uid as u64)
        + spec_json_field("gid"@, n.meta.gid as u64) + spec_json_field(
        "mode"@,
        n.meta.mode as u64,
    ) + spec_json_field("inode"@, n.meta.inode) + spec_json_field("device_id"@, n.meta.device_id)
        + spec_json_field("size"@, n.meta.size)
}

/// One node's text.
pub open spec fn spec_json_node(n: Node) -> Seq<char> {
    spec_json_node_head(n) + (match n.content {
        Option::Some(ids) => ",\"content\":["@ + spec_json_ids_upto(ids@, ids@.len() as int)
            + "]"@,
        Option::None => Seq::<char>::empty(),
    }) + (match n.subtree {
        Option::Some(s) => ",\"subtree\":"@ + spec_json_id(s@),
        Option::None => Seq::<char>::empty(),
    }) + "}"@
}

/// Append a node's name, kind and metadata fields.
#[verifier::rlimit(100)]
fn append_node_head(out: &mut Vec<char>, n: &Node)
    ensures
        final(out)@ == old(out)@ + spec_json_node_head(*n),
{
    append_str(out, "{\"name\":\"");
    append_str(out, n.name.as_str());
    append_str(out, "\",\"type\":");
    match n.node_type {
        crate::tree::NodeType::File => append_str(out, "\"file\""),
        crate::tree::NodeType::Dir => append_str(out, "\"dir\""),
        crate::tree::NodeType::Symlink => append_str(out, "\"symlink\""),
        crate::tree::NodeType::Device => append_str(out, "\"dev\""),
        crate::tree::NodeType::Chardev => append_str(out, "\"chardev\""),
        crate::tree::NodeType::Fifo => append_str(out, "\"fifo\""),
        crate::tree::NodeType::Socket => append_str(out, "\"socket\""),
    }
    append_opt_time(out, "mtime", &n.meta.mtime);
    append_opt_time(out, "ctime", &n.meta.ctime);
    append_opt_time(out, "atime", &n.meta.atime);
    append_field(out, "uid", n.meta.uid as u64);
    append_field(out, "gid", n.meta.gid as u64);
    append_field(out, "mode", n.meta.mode as u64);
    append_field(out, "inode", n.meta.inode);
    append_field(out, "device_id", n.meta.device_id);
    append_field(out, "size", n.meta.size);
    proof {
        assert(out@ =~= old(out)@ + spec_json_node_head(*n));
    }
}

/// Append one node.
#[verifier::rlimit(100)]
fn append_node(out: &mut Vec<char>, n: &Node)
    ensures
        final(out)@ == old(out)@ + spec_json_node(*n),
{
    append_node_head(out, n);
    match &n.content {
        Some(ids) => {
            append_str(out, ",\"content\":[");
            let ghost mid = out@;
            let mut i: usize = 0;
            proof {
                assert(out@ =~= mid + spec_json_ids_upto(ids@, 0));
            }
            while i < ids.len()
                invariant
                    i <= ids@.len(),
                    out@ == mid + spec_json_ids_upto(ids@, i as int),
                decreases ids@.len() - i,
            {
                if i > 0 {
                    out.push(',');
                }
                append_id(out, &ids[i]);
                proof {
                    if i == 0 {
                        assert(out@ =~= mid + spec_json_ids_upto(ids@, 1));
                    } else {
                        assert(out@ =~= mid + spec_json_ids_upto(ids@, i as int + 1));
                    }
                }
                i += 1;
            }
            append_str(out, "]");
        },
        None => {},
    }
    match &n.subtree {
        Some(s) => {
            append_str(out, ",\"subtree\":");
            append_id(out, s);
        },
        None => {},
    }
    append_str(out, "}");
    proof {
        assert(out@ =~= old(out)@ + spec_json_node(*n));
    }
}

/// A node list, comma separated.
pub open spec fn spec_json_nodes_upto(s: Seq<Node>, i: int) -> Seq<char>
    decreases i,
{
    if i <= 0 || i > s.len() {
        Seq::empty()
    } else if i == 1 {
        spec_json_node(s[0])
    } else {
        spec_json_nodes_upto(s, i - 1) + seq![','] + spec_json_node(s[i - 1])
    }
}

/// The tree document's text: its nodes in order.
pub open spec fn spec_json_tree(t: Tree) -> Seq<char> {
    "{\"nodes\":["@ + spec_json_nodes_upto(t.nodes@, t.nodes@.len() as int) + "]}"@
}

/// Serialize a tree document, the blob behind every directory id.  The
/// caller keeps node names to plain printable text.
pub fn tree_json(t: &Tree) -> (r: Vec<char>)
    requires
        forall|i: int| 0 <= i < t.nodes@.len() ==> spec_plain_text((#[trigger] t.nodes@[i]).name@),
    ensures
        r@ == spec_json_tree(*t),
{
    let mut out: Vec<char> = Vec::new();
    append_str(&mut out, "{\"nodes\":[");
    let ghost mid = out@;
    let mut i: usize = 0;
    proof {
        assert(out@ =~= mid + spec_json_nodes_upto(t.nodes@, 0));
    }
    while i < t.nodes.len()
        invariant
            i <= t.nodes@.len(),
            out@ == mid + spec_json_nodes_upto(t.nodes@, i as int),
        decreases t.nodes@.len() - i,
    {
        if i > 0 {
            out.push(',');
        }
        append_node(&mut out, &t.nodes[i]);
        proof {
            if i == 0 {
                assert(out@ =~= mid + spec_json_nodes_upto(t.nodes@, 1));
            } else {
                assert(out@ =~= mid + spec_json_nodes_upto(t.nodes@, i as int + 1));
            }
        }
        i += 1;
    }
    append_str(&mut out, "]}");
    proof {
        assert(out@ =~= spec_json_tree(*t));
    }
    out
}

} // verus!
