//! Disks: what `lsblk -d -n -P` reports of them, whether one hosts the root
//! file system or is mounted (read from the text of `/proc/mounts`), and
//! whether it may be wiped.
use vstd::prelude::*;

use crate::text::{
    chars_of, contains, contains_chars, eq_chars, is_text, is_whitespace, is_ws, lines, lines_of,
    push_str, split_whitespace, starts_with, starts_with_chars, string_of, views,
    words_of,
};

verus! {

#[derive(Debug, Clone)]
pub struct Disk {
    /// e.g. "sda"
    pub name: String,
    /// e.g. "/dev/sda"
    pub path: String,
    /// e.g. "500G"
    pub size: String,
    /// e.g. "Samsung SSD 850"
    pub model: String,
    /// a non-rotational disk (SSD, NVMe)
    pub is_ssd: bool,
    /// RO=1 in lsblk
    pub is_read_only: bool,
    /// the disk holds the partition mounted at `/`
    pub is_system: bool,
    /// the disk or one of its partitions is mounted
    pub is_mounted: bool,
}

pub ghost struct DiskView {
    pub name: Seq<char>,
    pub path: Seq<char>,
    pub size: Seq<char>,
    pub model: Seq<char>,
    pub is_ssd: bool,
    pub is_read_only: bool,
    pub is_system: bool,
    pub is_mounted: bool,
}

impl View for Disk {
    type V = DiskView;

    open spec fn view(&self) -> DiskView {
        DiskView {
            name: self.name@,
            path: self.path@,
            size: self.size@,
            model: self.model@,
            is_ssd: self.is_ssd,
            is_read_only: self.is_read_only,
            is_system: self.is_system,
            is_mounted: self.is_mounted,
        }
    }
}

pub open spec fn disk_views(v: Seq<Disk>) -> Seq<DiskView> {
    v.map_values(|d: Disk| d@)
}

// ---------------------------------------------------------------------------
// Mount table
// ---------------------------------------------------------------------------

/// A mount-table line saying that a device whose name contains `disk_name`
/// is mounted at `/`.
pub open spec fn is_root_mount_of(line: Seq<char>, disk_name: Seq<char>) -> bool {
    let parts = words_of(line);
    parts.len() >= 2 && parts[1] == "/"@ && contains(parts[0], disk_name)
}

/// The mount table says that the disk holds the root file system.
pub open spec fn hosts_root(mounts: Seq<char>, disk_name: Seq<char>) -> bool {
    exists|i: int|
        0 <= i < lines_of(mounts).len() && is_root_mount_of(#[trigger] lines_of(mounts)[i], disk_name)
}

/// The mount table has a line starting with `/dev/<disk_name>`.
pub open spec fn has_mounted_part(mounts: Seq<char>, disk_name: Seq<char>) -> bool {
    exists|i: int|
        0 <= i < lines_of(mounts).len() && starts_with(
            #[trigger] lines_of(mounts)[i],
            "/dev/"@ + disk_name,
        )
}

/// Whether the disk named `disk_name` holds the partition mounted at `/`,
/// according to the text of the mount table.
pub fn check_if_system_disk(disk_name: &str, mounts: &str) -> (res: bool)
    ensures
        res == hosts_root(mounts@, disk_name@),
{
    let name = chars_of(disk_name);
    let slash = chars_of("/");
    let ls = lines(chars_of(mounts).as_slice());
    let mut i: usize = 0;
    while i < ls.len()
        invariant
            i <= ls@.len(),
            views(ls@) == lines_of(mounts@),
            name@ == disk_name@,
            slash@ == "/"@,
            forall|k: int| 0 <= k < i ==> !is_root_mount_of(#[trigger] lines_of(mounts@)[k], disk_name@),
        decreases ls@.len() - i,
    {
        assert(views(ls@)[i as int] == ls@[i as int]@);
        let parts = split_whitespace(ls[i].as_slice());
        if parts.len() >= 2 {
            assert(views(parts@)[0] == parts@[0]@);
            assert(views(parts@)[1] == parts@[1]@);
            if eq_chars(parts[1].as_slice(), slash.as_slice()) && contains_chars(
                parts[0].as_slice(),
                name.as_slice(),
            ) {
                assert(is_root_mount_of(lines_of(mounts@)[i as int], disk_name@));
                return true;
            }
        }
        i = i + 1;
    }
    false
}

/// Whether the disk or one of its partitions is mounted, according to the
/// text of the mount table.
pub fn check_if_mounted(disk_name: &str, mounts: &str) -> (res: bool)
    ensures
        res == has_mounted_part(mounts@, disk_name@),
{
    let mut prefix = String::from_str("/dev/");
    push_str(&mut prefix, disk_name);
    let prefix = chars_of(prefix.as_str());
    let ls = lines(chars_of(mounts).as_slice());
    let mut i: usize = 0;
    while i < ls.len()
        invariant
            i <= ls@.len(),
            views(ls@) == lines_of(mounts@),
            prefix@ == "/dev/"@ + disk_name@,
            forall|k: int|
                0 <= k < i ==> !starts_with(#[trigger] lines_of(mounts@)[k], "/dev/"@ + disk_name@),
        decreases ls@.len() - i,
    {
        assert(views(ls@)[i as int] == ls@[i as int]@);
        if starts_with_chars(ls[i].as_slice(), prefix.as_slice()) {
            return true;
        }
        i = i + 1;
    }
    false
}

// ---------------------------------------------------------------------------
// Disks
// ---------------------------------------------------------------------------

/// The disk that `Disk::new` builds from these values and this mount table.
pub open spec fn disk_spec(
    name: Seq<char>,
    path: Seq<char>,
    size: Seq<char>,
    model: Seq<char>,
    is_ssd: bool,
    is_read_only: bool,
    mounts: Seq<char>,
) -> DiskView {
    DiskView {
        name,
        path,
        size,
        model,
        is_ssd,
        is_read_only,
        is_system: hosts_root(mounts, name),
        is_mounted: has_mounted_part(mounts, name),
    }
}

/// Whether a disk may be wiped, and why not (or "OK").
pub open spec fn shred_verdict(d: DiskView) -> (bool, Seq<char>) {
    if d.is_system {
        (false, "Ce disque est le disque système"@)
    } else if d.is_ssd && d.is_read_only {
        (false, "SSD en lecture seule (RO)"@)
    } else if d.is_mounted {
        (false, "Ce disque ou l'une de ses partitions est monté"@)
    } else {
        (true, "OK"@)
    }
}

impl Disk {
    /// A disk with the given description; whether it is the system disk
    /// and whether it is mounted come from the text of the mount table.
    pub fn new(
        name: String,
        path: String,
        size: String,
        model: String,
        is_ssd: bool,
        is_read_only: bool,
        mounts: &str,
    ) -> (res: Self)
        ensures
            res@ == disk_spec(name@, path@, size@, model@, is_ssd, is_read_only, mounts@),
    {
        let is_system = check_if_system_disk(name.as_str(), mounts);
        let is_mounted = check_if_mounted(name.as_str(), mounts);
        Disk { name, path, size, model, is_ssd, is_read_only, is_system, is_mounted }
    }

    /// Whether the disk may be wiped, with the reason when it may not.
    pub fn can_be_shredded(&self) -> (res: (bool, String))
        ensures
            (res.0, res.1@) == shred_verdict(self@),
            res.0 ==> !self.is_system && !self.is_mounted && !(self.is_ssd && self.is_read_only),
    {
        if self.is_system {
            return (false, String::from_str("Ce disque est le disque système"));
        }
        if self.is_ssd && self.is_read_only {
            return (false, String::from_str("SSD en lecture seule (RO)"));
        }
        if self.is_mounted {
            return (false, String::from_str("Ce disque ou l'une de ses partitions est monté"));
        }
        (true, String::from_str("OK"))
    }
}

// ---------------------------------------------------------------------------
// `lsblk -P` lines: KEY="value" pairs
// ---------------------------------------------------------------------------

/// Where the reader of a `KEY="value"` line stands.
pub ghost struct PairScan {
    pub key: Seq<char>,
    pub value: Seq<char>,
    pub in_key: bool,
    pub in_value: bool,
    pub escape_next: bool,
    /// every pair completed so far, in order
    pub pairs: Seq<(Seq<char>, Seq<char>)>,
}

/// Reading one more character: outside a value, characters up to `=` make the
/// key (whitespace left out) and the value starts after the next `"`; inside
/// it, `\` takes the next character literally and an unescaped `"` ends the
/// pair, which is kept when its key is not empty.
pub open spec fn pair_step(st: PairScan, ch: char) -> PairScan {
    if st.in_key {
        if ch == '=' {
            PairScan { in_key: false, ..st }
        } else if !is_ws(ch) {
            PairScan { key: st.key.push(ch), ..st }
        } else {
            st
        }
    } else if !st.in_value {
        if ch == '"' {
            PairScan { in_value: true, ..st }
        } else {
            st
        }
    } else if st.escape_next {
        PairScan { value: st.value.push(ch), escape_next: false, ..st }
    } else if ch == '\\' {
        PairScan { escape_next: true, ..st }
    } else if ch == '"' {
        PairScan {
            key: seq![],
            value: seq![],
            in_key: true,
            in_value: false,
            escape_next: st.escape_next,
            pairs: if st.key.len() > 0 {
                st.pairs.push((st.key, st.value))
            } else {
                st.pairs
            },
        }
    } else {
        PairScan { value: st.value.push(ch), ..st }
    }
}

pub open spec fn pair_scan(s: Seq<char>) -> PairScan
    decreases s.len(),
{
    if s.len() == 0 {
        PairScan {
            key: seq![],
            value: seq![],
            in_key: true,
            in_value: false,
            escape_next: false,
            pairs: seq![],
        }
    } else {
        pair_step(pair_scan(s.drop_last()), s.last())
    }
}

/// The map that inserting the pairs in order gives (a later value for a
/// key replaces an earlier one).
pub open spec fn pairs_map(p: Seq<(Seq<char>, Seq<char>)>) -> Map<Seq<char>, Seq<char>>
    decreases p.len(),
{
    if p.len() == 0 {
        Map::empty()
    } else {
        pairs_map(p.drop_last()).insert(p.last().0, p.last().1)
    }
}

/// The fields of one `lsblk -P` line.
pub open spec fn lsblk_fields(line: Seq<char>) -> Map<Seq<char>, Seq<char>> {
    pairs_map(pair_scan(line).pairs)
}

/// The `KEY="value"` fields of one line, as a map from key to value.
pub struct LsblkFields {
    /// the completed pairs in the order read; a later one wins
    pairs: Vec<(Vec<char>, Vec<char>)>,
}

pub open spec fn pair_views(p: Seq<(Vec<char>, Vec<char>)>) -> Seq<(Seq<char>, Seq<char>)> {
    p.map_values(|e: (Vec<char>, Vec<char>)| (e.0@, e.1@))
}

impl View for LsblkFields {
    type V = Map<Seq<char>, Seq<char>>;

    closed spec fn view(&self) -> Map<Seq<char>, Seq<char>> {
        pairs_map(pair_views(self.pairs@))
    }
}

proof fn lemma_pairs_map_last(p: Seq<(Seq<char>, Seq<char>)>, key: Seq<char>, i: int)
    requires
        0 <= i <= p.len(),
        forall|k: int| i <= k < p.len() ==> (#[trigger] p[k]).0 != key,
    ensures
        pairs_map(p).dom().contains(key) == pairs_map(p.take(i)).dom().contains(key),
        pairs_map(p)[key] == pairs_map(p.take(i))[key],
    decreases p.len() - i,
{
    if i < p.len() {
        lemma_pairs_map_last(p.drop_last(), key, i);
        assert(p.drop_last().take(i) == p.take(i));
    } else {
        assert(p.take(i) == p);
    }
}

impl LsblkFields {
    /// The value of field `key`.
    pub fn get(&self, key: &str) -> (res: Option<String>)
        ensures
            match res {
                Some(v) => self@.dom().contains(key@) && self@[key@] == v@,
                None => !self@.dom().contains(key@),
            },
    {
        let k = chars_of(key);
        let ghost p = pair_views(self.pairs@);
        let mut i: usize = self.pairs.len();
        while i > 0
            invariant
                i <= self.pairs@.len(),
                p == pair_views(self.pairs@),
                k@ == key@,
                forall|j: int| i <= j < p.len() ==> (#[trigger] p[j]).0 != key@,
            decreases i,
        {
            let e = &self.pairs[i - 1];
            assert(p[i - 1] == (e.0@, e.1@));
            if eq_chars(e.0.as_slice(), k.as_slice()) {
                proof {
                    lemma_pairs_map_last(p, key@, i as int);
                    assert(p.take(i as int).drop_last() == p.take(i - 1));
                    assert(p.take(i as int).last() == p[i - 1]);
                }
                return Some(string_of(e.1.as_slice()));
            }
            i = i - 1;
        }
        proof {
            lemma_pairs_map_last(p, key@, 0);
        }
        None
    }

    /// The value of field `key`, or `default` when the line has none.
    pub fn get_or(&self, key: &str, default: &str) -> (res: String)
        ensures
            res@ == (if self@.dom().contains(key@) {
                self@[key@]
            } else {
                default@
            }),
    {
        match self.get(key) {
            Some(v) => v,
            None => String::from_str(default),
        }
    }
}

/// Reads the `KEY="value"` pairs of one `lsblk -P` line.
pub fn parse_lsblk_pairs(line: &str) -> (res: LsblkFields)
    ensures
        res@ == lsblk_fields(line@),
{
    let cs = chars_of(line);
    let mut pairs: Vec<(Vec<char>, Vec<char>)> = Vec::new();
    let mut key: Vec<char> = Vec::new();
    let mut value: Vec<char> = Vec::new();
    let mut in_key = true;
    let mut in_value = false;
    let mut escape_next = false;
    let mut i: usize = 0;
    assert(cs@.take(0).len() == 0);
    assert(pair_views(pairs@) =~= seq![]);
    while i < cs.len()
        invariant
            i <= cs@.len(),
            cs@ == line@,
            pair_scan(cs@.take(i as int)) == (PairScan {
                key: key@,
                value: value@,
                in_key,
                in_value,
                escape_next,
                pairs: pair_views(pairs@),
            }),
        decreases cs@.len() - i,
    {
        let ch = cs[i];
        assert(cs@.take(i + 1).drop_last() == cs@.take(i as int));
        if in_key {
            if ch == '=' {
                in_key = false;
            } else if !is_whitespace(ch) {
                key.push(ch);
            }
        } else if !in_value {
            if ch == '"' {
                in_value = true;
            }
        } else if escape_next {
            value.push(ch);
            escape_next = false;
        } else if ch == '\\' {
            escape_next = true;
        } else if ch == '"' {
            if key.len() > 0 {
                let entry = (key, value);
                proof {
                    assert(pair_views(pairs@.push(entry)) =~= pair_views(pairs@).push(
                        (entry.0@, entry.1@),
                    ));
                }
                pairs.push(entry);
            }
            key = Vec::new();
            value = Vec::new();
            in_key = true;
            in_value = false;
        } else {
            value.push(ch);
        }
        i = i + 1;
    }
    assert(cs@.take(cs@.len() as int) == cs@);
    LsblkFields { pairs }
}

// ---------------------------------------------------------------------------
// Disks from an `lsblk` listing
// ---------------------------------------------------------------------------

pub open spec fn field_or(f: Map<Seq<char>, Seq<char>>, key: Seq<char>, default: Seq<char>) -> Seq<
    char,
> {
    if f.dom().contains(key) {
        f[key]
    } else {
        default
    }
}

/// The disk that one listing line describes, if it is a whole disk with a
/// name and a type, of type `disk`, and not a `loop` or `ram` device.
pub open spec fn disk_of_line(line: Seq<char>, mounts: Seq<char>) -> Option<DiskView> {
    let f = lsblk_fields(line);
    let name = field_or(f, "NAME"@, seq![]);
    let size = field_or(f, "SIZE"@, seq![]);
    let model = field_or(f, "MODEL"@, seq![]);
    let disk_type = field_or(f, "TYPE"@, seq![]);
    let rota = field_or(f, "ROTA"@, "1"@);
    let ro = field_or(f, "RO"@, "0"@);
    if name.len() == 0 || disk_type.len() == 0 || disk_type != "disk"@ || starts_with(
        name,
        "loop"@,
    ) || starts_with(name, "ram"@) {
        None
    } else {
        Some(
            disk_spec(
                name,
                "/dev/"@ + name,
                size,
                if model.len() == 0 {
                    "Unknown"@
                } else {
                    model
                },
                rota == "0"@,
                ro == "1"@,
                mounts,
            ),
        )
    }
}

pub open spec fn disks_of_lines(ls: Seq<Seq<char>>, mounts: Seq<char>) -> Seq<DiskView>
    decreases ls.len(),
{
    if ls.len() == 0 {
        seq![]
    } else {
        match disk_of_line(ls.last(), mounts) {
            Some(d) => disks_of_lines(ls.drop_last(), mounts).push(d),
            None => disks_of_lines(ls.drop_last(), mounts),
        }
    }
}

/// The disks of an `lsblk -d -n -P -o NAME,SIZE,MODEL,TYPE,ROTA,RO` listing,
/// in its order.
pub open spec fn disks_of_listing(listing: Seq<char>, mounts: Seq<char>) -> Seq<DiskView> {
    disks_of_lines(lines_of(listing), mounts)
}

fn disk_from_line(line: &[char], mounts: &str) -> (res: Option<Disk>)
    ensures
        match res {
            Some(d) => disk_of_line(line@, mounts@) == Some(d@),
            None => disk_of_line(line@, mounts@) is None,
        },
{
    proof {
        reveal_strlit("");
    }
    let text = string_of(line);
    let parsed = parse_lsblk_pairs(text.as_str());
    let name = parsed.get_or("NAME", "");
    let size = parsed.get_or("SIZE", "");
    let model = parsed.get_or("MODEL", "");
    let disk_type = parsed.get_or("TYPE", "");
    let rota = parsed.get_or("ROTA", "1");
    let ro = parsed.get_or("RO", "0");
    let name_c = chars_of(name.as_str());
    let type_c = chars_of(disk_type.as_str());
    if name_c.len() == 0 || type_c.len() == 0 {
        return None;
    }
    if !is_text(type_c.as_slice(), "disk") {
        return None;
    }
    if starts_with_chars(name_c.as_slice(), chars_of("loop").as_slice()) || starts_with_chars(
        name_c.as_slice(),
        chars_of("ram").as_slice(),
    ) {
        return None;
    }
    let mut path = String::from_str("/dev/");
    push_str(&mut path, name.as_str());
    let model = if chars_of(model.as_str()).len() == 0 {
        String::from_str("Unknown")
    } else {
        model
    };
    let is_ssd = is_text(chars_of(rota.as_str()).as_slice(), "0");
    let is_read_only = is_text(chars_of(ro.as_str()).as_slice(), "1");
    let ghost f = lsblk_fields(line@);
    assert(name@ == field_or(f, "NAME"@, seq![]));
    assert(path@ == "/dev/"@ + name@);
    assert(model@ == (if field_or(f, "MODEL"@, seq![]).len() == 0 { "Unknown"@ } else { field_or(f, "MODEL"@, seq![]) }));
    assert(is_ssd == (field_or(f, "ROTA"@, "1"@) == "0"@));
    assert(is_read_only == (field_or(f, "RO"@, "0"@) == "1"@));
    assert(field_or(f, "TYPE"@, seq![]) == "disk"@);
    assert(!starts_with(name@, "loop"@));
    assert(!starts_with(name@, "ram"@));
    assert(size@ == field_or(f, "SIZE"@, seq![]));
    let d = Disk::new(name, path, size, model, is_ssd, is_read_only, mounts);
    assert(disk_of_line(line@, mounts@) == Some(d@));
    Some(d)
}

/// The disks of an `lsblk` listing, with the mount table in `mounts`.
pub fn disks_from_lsblk_output(listing: &str, mounts: &str) -> (res: Vec<Disk>)
    ensures
        disk_views(res@) == disks_of_listing(listing@, mounts@),
{
    let ls = lines(chars_of(listing).as_slice());
    let mut disks: Vec<Disk> = Vec::new();
    let mut i: usize = 0;
    while i < ls.len()
        invariant
            i <= ls@.len(),
            views(ls@) == lines_of(listing@),
            disk_views(disks@) == disks_of_lines(views(ls@).take(i as int), mounts@),
        decreases ls@.len() - i,
    {
        assert(views(ls@).take(i + 1).drop_last() == views(ls@).take(i as int));
        assert(views(ls@)[i as int] == ls@[i as int]@);
        match disk_from_line(ls[i].as_slice(), mounts) {
            Some(d) => {
                proof {
                    assert(disk_views(disks@.push(d)) =~= disk_views(disks@).push(d@));
                }
                disks.push(d);
            },
            None => {},
        }
        i = i + 1;
    }
    assert(views(ls@).take(ls@.len() as int) == views(ls@));
    disks
}

// ---------------------------------------------------------------------------
// Laws
// ---------------------------------------------------------------------------

/// A disk whose name occurs in the device of the mount-table line for `/` is
/// never offered for wiping: it is marked as the system disk and refused
/// with the reason that it is the system disk.
pub proof fn lemma_root_disk_refused(
    name: Seq<char>,
    path: Seq<char>,
    size: Seq<char>,
    model: Seq<char>,
    is_ssd: bool,
    is_read_only: bool,
    mounts: Seq<char>,
    i: int,
)
    requires
        0 <= i < lines_of(mounts).len(),
        is_root_mount_of(lines_of(mounts)[i], name),
    ensures
        disk_spec(name, path, size, model, is_ssd, is_read_only, mounts).is_system,
        shred_verdict(disk_spec(name, path, size, model, is_ssd, is_read_only, mounts)) == (
            false,
            "Ce disque est le disque système"@,
        ),
{
}

proof fn lemma_disks_of_lines_filtered(ls: Seq<Seq<char>>, mounts: Seq<char>)
    ensures
        forall|i: int|
            0 <= i < disks_of_lines(ls, mounts).len() ==> exists|j: int|
                0 <= j < ls.len() && disk_of_line(ls[j], mounts) == Some(
                    #[trigger] disks_of_lines(ls, mounts)[i],
                ),
    decreases ls.len(),
{
    if ls.len() > 0 {
        let init = ls.drop_last();
        lemma_disks_of_lines_filtered(init, mounts);
        let ds = disks_of_lines(ls, mounts);
        let prev = disks_of_lines(init, mounts);
        assert forall|i: int| 0 <= i < ds.len() implies exists|j: int|
            0 <= j < ls.len() && disk_of_line(ls[j], mounts) == Some(#[trigger] ds[i]) by {
            if i < prev.len() {
                assert(ds[i] == prev[i]);
                let j = choose|j: int|
                    0 <= j < init.len() && disk_of_line(init[j], mounts) == Some(#[trigger] prev[i]);
                assert(ls[j] == init[j]);
            } else {
                assert(disk_of_line(ls[ls.len() - 1], mounts) == Some(ds[i]));
            }
        }
    }
}

/// Every disk read from a listing is a whole disk of type `disk` with a
/// name that is neither a `loop` nor a `ram` device, reached at
/// `/dev/<name>`, with a model (`Unknown` when the listing gives none), and
/// marked as system disk or mounted exactly as the mount table says.
pub proof fn lemma_listing_keeps_real_disks(listing: Seq<char>, mounts: Seq<char>)
    ensures
        forall|i: int|
            0 <= i < disks_of_listing(listing, mounts).len() ==> {
                let d = #[trigger] disks_of_listing(listing, mounts)[i];
                &&& d.name.len() > 0
                &&& !starts_with(d.name, "loop"@)
                &&& !starts_with(d.name, "ram"@)
                &&& d.path == "/dev/"@ + d.name
                &&& d.model.len() > 0
                &&& d.is_system == hosts_root(mounts, d.name)
                &&& d.is_mounted == has_mounted_part(mounts, d.name)
            },
{
    reveal_strlit("Unknown");
    lemma_disks_of_lines_filtered(lines_of(listing), mounts);
}

/// Only a disk that is neither the system disk, nor mounted, nor a read-only
/// SSD is accepted, and its reason is then "OK".
pub proof fn lemma_accepted_disk_is_safe(d: DiskView)
    ensures
        shred_verdict(d).0 <==> (!d.is_system && !(d.is_ssd && d.is_read_only) && !d.is_mounted),
        shred_verdict(d).0 ==> shred_verdict(d).1 == "OK"@,
{
}

/// A field name as the reader keeps it: not empty, without whitespace and
/// without `=`.
pub open spec fn is_clean_key(k: Seq<char>) -> bool {
    k.len() > 0 && forall|i: int| 0 <= i < k.len() ==> !is_ws(#[trigger] k[i]) && k[i] != '='
}

proof fn lemma_scan_keys_clean(s: Seq<char>)
    ensures
        forall|i: int|
            0 <= i < pair_scan(s).key.len() ==> !is_ws(#[trigger] pair_scan(s).key[i])
                && pair_scan(s).key[i] != '=',
        forall|j: int|
            0 <= j < pair_scan(s).pairs.len() ==> is_clean_key((#[trigger] pair_scan(s).pairs[j]).0),
    decreases s.len(),
{
    if s.len() > 0 {
        lemma_scan_keys_clean(s.drop_last());
        let st = pair_scan(s.drop_last());
        let n = pair_scan(s);
        assert forall|j: int| 0 <= j < n.pairs.len() implies is_clean_key(
            (#[trigger] n.pairs[j]).0,
        ) by {
            if j < st.pairs.len() {
                assert(n.pairs[j] == st.pairs[j]);
            }
        }
    }
}

proof fn lemma_pairs_map_keys(p: Seq<(Seq<char>, Seq<char>)>)
    requires
        forall|j: int| 0 <= j < p.len() ==> is_clean_key((#[trigger] p[j]).0),
    ensures
        forall|k: Seq<char>| #[trigger] pairs_map(p).dom().contains(k) ==> is_clean_key(k),
    decreases p.len(),
{
    if p.len() > 0 {
        let q = p.drop_last();
        assert forall|j: int| 0 <= j < q.len() implies is_clean_key((#[trigger] q[j]).0) by {
            assert(q[j] == p[j]);
        }
        lemma_pairs_map_keys(q);
        assert(is_clean_key(p[p.len() - 1].0));
        assert forall|k: Seq<char>| #[trigger] pairs_map(p).dom().contains(k) implies is_clean_key(
            k,
        ) by {
            if k != p.last().0 {
                assert(pairs_map(q).dom().contains(k));
            }
        }
    }
}

/// Every field name read from a line is non-empty and holds neither
/// whitespace nor `=`, whatever the line.
pub proof fn lemma_lsblk_keys_clean(line: Seq<char>)
    ensures
        forall|k: Seq<char>| #[trigger] lsblk_fields(line).dom().contains(k) ==> is_clean_key(k),
{
    lemma_scan_keys_clean(line);
    lemma_pairs_map_keys(pair_scan(line).pairs);
}

/// A value whose closing `"` never comes adds no field: once the reader is
/// inside a value, further characters holding no `"` and no `\\` leave the
/// fields as they were.
pub proof fn lemma_unclosed_value_dropped(s: Seq<char>, t: Seq<char>)
    requires
        pair_scan(s).in_value,
        forall|i: int| 0 <= i < t.len() ==> #[trigger] t[i] != '"' && t[i] != '\\',
    ensures
        pair_scan(s + t).in_value,
        pair_scan(s + t).pairs == pair_scan(s).pairs,
        lsblk_fields(s + t) == lsblk_fields(s),
    decreases t.len(),
{
    if t.len() == 0 {
        assert(s + t =~= s);
    } else {
        let t0 = t.drop_last();
        assert forall|i: int| 0 <= i < t0.len() implies #[trigger] t0[i] != '"' && t0[i] != '\\' by {
            assert(t0[i] == t[i]);
        }
        lemma_unclosed_value_dropped(s, t0);
        assert((s + t).drop_last() =~= s + t0);
        assert((s + t).last() == t[t.len() - 1]);
    }
}

/// A disk read from one listing line takes its name, size and the two flags
/// from that line's own fields: it is an SSD exactly when `ROTA` is "0" and
/// read-only exactly when `RO` is "1", each flag from its field alone; an SSD
/// read-only line therefore gives a disk that may not be wiped.
pub proof fn lemma_line_flags(line: Seq<char>, mounts: Seq<char>)
    ensures
        disk_of_line(line, mounts) matches Some(d) ==> {
            let f = lsblk_fields(line);
            &&& f.dom().contains("NAME"@) && d.name == f["NAME"@]
            &&& d.size == field_or(f, "SIZE"@, seq![])
            &&& d.is_ssd == (f.dom().contains("ROTA"@) && f["ROTA"@] == "0"@)
            &&& d.is_read_only == (f.dom().contains("RO"@) && f["RO"@] == "1"@)
            &&& (d.is_ssd && d.is_read_only ==> !shred_verdict(d).0)
        },
{
    reveal_strlit("0");
    reveal_strlit("1");
    assert("1"@[0] != "0"@[0]);
    assert("1"@ != "0"@);
    if let Some(d) = disk_of_line(line, mounts) {
        let f = lsblk_fields(line);
        assert(field_or(f, "NAME"@, seq![]).len() > 0);
        assert(f.dom().contains("NAME"@));
    }
}

/// The disk at place `i` of a listing comes from line `j`: its name is that
/// line's `NAME` field, and that line's `ROTA` and `RO` fields alone give its
/// SSD and read-only flags.
pub open spec fn from_line_fields(d: DiskView, f: Map<Seq<char>, Seq<char>>) -> bool {
    &&& d.name == f["NAME"@]
    &&& d.is_ssd == (f.dom().contains("ROTA"@) && f["ROTA"@] == "0"@)
    &&& d.is_read_only == (f.dom().contains("RO"@) && f["RO"@] == "1"@)
}

/// Every disk of a listing comes from one of its lines, whose `ROTA` and
/// `RO` fields alone give its SSD and read-only flags.
pub proof fn lemma_listing_flags(listing: Seq<char>, mounts: Seq<char>)
    ensures
        forall|i: int|
            0 <= i < disks_of_listing(listing, mounts).len() ==> exists|j: int|
                0 <= j < lines_of(listing).len() && from_line_fields(
                    #[trigger] disks_of_listing(listing, mounts)[i],
                    lsblk_fields(lines_of(listing)[j]),
                ),
{
    let ls = lines_of(listing);
    lemma_disks_of_lines_filtered(ls, mounts);
    assert forall|i: int| 0 <= i < disks_of_listing(listing, mounts).len() implies exists|j: int|
        0 <= j < ls.len() && from_line_fields(
            #[trigger] disks_of_listing(listing, mounts)[i],
            lsblk_fields(ls[j]),
        ) by {
        let d = disks_of_listing(listing, mounts)[i];
        let j = choose|j: int| 0 <= j < ls.len() && disk_of_line(ls[j], mounts) == Some(d);
        lemma_line_flags(ls[j], mounts);
        assert(from_line_fields(d, lsblk_fields(ls[j])));
    }
}

} // verus!
