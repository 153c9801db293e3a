use vstd::prelude::*;
use vstd::string::StrSliceExecFns;

use crate::agg::{saturate, sum_where};
use crate::text::{contains_text, is_prefix_of, occurs_in, same_text, starts_with, texts};

verus! {

pub open spec fn is_digit(c: char) -> bool {
    '0' <= c && c <= '9'
}

pub open spec fn digit_stop() -> spec_fn(char) -> bool {
    |c: char| is_digit(c)
}

pub open spec fn p_stop() -> spec_fn(char) -> bool {
    |c: char| c == 'p'
}

/// Length of the longest prefix of `s` with no character that `stop` picks.
pub open spec fn run_len(s: Seq<char>, stop: spec_fn(char) -> bool) -> nat
    decreases s.len(),
{
    if s.len() == 0 || stop(s[0]) {
        0
    } else {
        1 + run_len(s.drop_first(), stop)
    }
}

/// Longest prefix of `s` with no character that `stop` picks.
pub open spec fn prefix_before(s: Seq<char>, stop: spec_fn(char) -> bool) -> Seq<char> {
    s.subrange(0, run_len(s, stop) as int)
}

proof fn lemma_run_len(s: Seq<char>, stop: spec_fn(char) -> bool, i: int)
    requires
        0 <= i <= s.len(),
        forall|k: int| 0 <= k < i ==> !stop(#[trigger] s[k]),
        i == s.len() || stop(s[i]),
    ensures
        run_len(s, stop) == i,
    decreases s.len(),
{
    if s.len() > 0 && !stop(s[0]) {
        assert forall|k: int| 0 <= k < i - 1 implies !stop(#[trigger] s.drop_first()[k]) by {
            assert(s.drop_first()[k] == s[k + 1]);
        }
        if i < s.len() {
            assert(s.drop_first()[i - 1] == s[i]);
        }
        lemma_run_len(s.drop_first(), stop, i - 1);
    }
}

pub open spec fn dev_prefix() -> Seq<char> {
    seq!['/', 'd', 'e', 'v', '/']
}

pub open spec fn nvme() -> Seq<char> {
    seq!['n', 'v', 'm', 'e']
}

/// `s` without any leading "/dev/" prefixes.
pub open spec fn strip_dev(s: Seq<char>) -> Seq<char>
    decreases s.len(),
{
    if is_prefix_of(dev_prefix(), s) {
        strip_dev(s.subrange(5, s.len() as int))
    } else {
        s
    }
}

/// Name of the physical device that holds partition `name`: "/dev/" dropped, then
/// for NVMe names everything before the partition's "p", for other names everything
/// before the first digit ("sda1" to "sda", "nvme0n1p1" to "nvme0n1").
pub open spec fn parent_name_of(name: Seq<char>) -> Seq<char> {
    let t = strip_dev(name);
    let base = if occurs_in(nvme(), name) { t } else { prefix_before(t, digit_stop()) };
    if occurs_in(nvme(), base) {
        prefix_before(base, p_stop())
    } else {
        prefix_before(base, digit_stop())
    }
}

fn digit_run(s: &str) -> (r: usize)
    ensures
        r == run_len(s@, digit_stop()),
        r <= s@.len(),
{
    let n = s.unicode_len();
    let mut i: usize = 0;
    while i < n
        invariant
            n == s@.len(),
            i <= n,
            forall|k: int| 0 <= k < i ==> !digit_stop()(#[trigger] s@[k]),
        decreases n - i,
    {
        let c = s.get_char(i);
        if '0' <= c && c <= '9' {
            proof {
                lemma_run_len(s@, digit_stop(), i as int);
            }
            return i;
        }
        i = i + 1;
    }
    proof {
        lemma_run_len(s@, digit_stop(), i as int);
    }
    i
}

fn p_run(s: &str) -> (r: usize)
    ensures
        r == run_len(s@, p_stop()),
        r <= s@.len(),
{
    let n = s.unicode_len();
    let mut i: usize = 0;
    while i < n
        invariant
            n == s@.len(),
            i <= n,
            forall|k: int| 0 <= k < i ==> !p_stop()(#[trigger] s@[k]),
        decreases n - i,
    {
        if s.get_char(i) == 'p' {
            proof {
                lemma_run_len(s@, p_stop(), i as int);
            }
            return i;
        }
        i = i + 1;
    }
    proof {
        lemma_run_len(s@, p_stop(), i as int);
    }
    i
}

fn strip_dev_exec(s: &str) -> (r: &str)
    ensures
        r@ == strip_dev(s@),
{
    proof {
        reveal_strlit("/dev/");
        assert("/dev/"@ =~= dev_prefix());
    }
    let mut cur: &str = s;
    while starts_with(cur, "/dev/")
        invariant
            strip_dev(cur@) == strip_dev(s@),
            "/dev/"@ == dev_prefix(),
        decreases cur@.len(),
    {
        let n = cur.unicode_len();
        cur = cur.substring_char(5, n);
    }
    cur
}

/// Computes `parent_name_of`.
pub fn parent_device(name: &str) -> (r: String)
    ensures
        r@ == parent_name_of(name@),
{
    proof {
        reveal_strlit("nvme");
        assert("nvme"@ =~= nvme());
    }
    let t = strip_dev_exec(name);
    let base: &str = if contains_text(name, "nvme") {
        t
    } else {
        let k = digit_run(t);
        t.substring_char(0, k)
    };
    let out: &str = if contains_text(base, "nvme") {
        let k = p_run(base);
        base.substring_char(0, k)
    } else {
        let k = digit_run(base);
        base.substring_char(0, k)
    };
    out.to_owned()
}

/// Name of the whole device behind `name`: "/dev/" dropped, cut before the first digit.
pub open spec fn base_device_of(name: Seq<char>) -> Seq<char> {
    prefix_before(strip_dev(name), digit_stop())
}

/// Computes `base_device_of`.
pub fn base_device(name: &str) -> (r: String)
    ensures
        r@ == base_device_of(name@),
{
    let t = strip_dev_exec(name);
    let k = digit_run(t);
    t.substring_char(0, k).to_owned()
}

/// Kind of disk `name` is: "NVMe" by its name; else "SSD" or "HDD" from the
/// system's rotational flag ("0" or "1") when it has one; without a flag, "SSD" for
/// paravirtual disks ("vd…", "xvd…"); otherwise unknown.
pub open spec fn disk_type_of(name: Seq<char>, rotational: Option<Seq<char>>) -> Option<Seq<char>> {
    if is_prefix_of(nvme(), strip_dev(name)) {
        Some("NVMe"@)
    } else {
        match rotational {
            Some(flag) => if flag == "0"@ {
                Some("SSD"@)
            } else if flag == "1"@ {
                Some("HDD"@)
            } else {
                None
            },
            None => if is_prefix_of("vd"@, base_device_of(name)) || is_prefix_of("xvd"@, base_device_of(name)) {
                Some("SSD"@)
            } else {
                None
            },
        }
    }
}

/// Computes `disk_type_of` from the device name and its trimmed rotational flag.
pub fn detect_disk_type(name: &str, rotational: Option<&str>) -> (r: Option<&'static str>)
    ensures
        r matches Some(t) ==> disk_type_of(name@, match rotational {
            Some(f) => Some(f@),
            None => None,
        }) == Some(t@),
        r is None ==> disk_type_of(name@, match rotational {
            Some(f) => Some(f@),
            None => None,
        }) is None,
{
    proof {
        reveal_strlit("nvme");
        assert("nvme"@ =~= nvme());
    }
    let t = strip_dev_exec(name);
    if starts_with(t, "nvme") {
        return Some("NVMe");
    }
    match rotational {
        Some(flag) => {
            if same_text(flag, "0") {
                Some("SSD")
            } else if same_text(flag, "1") {
                Some("HDD")
            } else {
                None
            }
        },
        None => {
            let base = base_device(name);
            if starts_with(base.as_str(), "vd") || starts_with(base.as_str(), "xvd") {
                Some("SSD")
            } else {
                None
            }
        },
    }
}

/// Name prefixes of block devices that are not disks (loop, RAM, mapper, optical, floppy).
pub open spec fn is_pseudo_device(name: Seq<char>) -> bool {
    ||| is_prefix_of("loop"@, name)
    ||| is_prefix_of("ram"@, name)
    ||| is_prefix_of("dm-"@, name)
    ||| is_prefix_of("sr"@, name)
    ||| is_prefix_of("fd"@, name)
}

/// Computes `is_pseudo_device`.
pub fn pseudo_device(name: &str) -> (r: bool)
    ensures
        r == is_pseudo_device(name@),
{
    starts_with(name, "loop") || starts_with(name, "ram") || starts_with(name, "dm-") || starts_with(name, "sr")
        || starts_with(name, "fd")
}

/// A block device as the operating system lists it; `total` in bytes.
pub struct DeviceSample {
    pub name: String,
    pub model: Option<String>,
    pub serial: Option<String>,
    pub total: u64,
    pub disk_type: Option<String>,
}

/// A mounted partition; sizes in bytes.
pub struct PartitionSample {
    pub name: String,
    pub mount_point: String,
    pub total_space: u64,
    pub available_space: u64,
}

/// One physical disk with its partitions merged in: their mount points, and the
/// bytes used on them.
pub struct DiskMetrics {
    pub name: String,
    pub model: Option<String>,
    pub serial: Option<String>,
    pub total: u64,
    pub disk_type: Option<String>,
    pub mount_points: Vec<String>,
    pub used: u64,
}

/// Whether a device is reported: a real disk with a non-zero size.
pub open spec fn reported(d: DeviceSample) -> bool {
    !is_pseudo_device(d.name@) && d.total > 0
}

pub open spec fn reported_sel() -> spec_fn(DeviceSample) -> bool {
    |d: DeviceSample| reported(d)
}

/// Whether a partition's usage is ignored (snap images, the EFI system partition).
pub open spec fn is_special_mount(mount: Seq<char>) -> bool {
    is_prefix_of("/snap"@, mount) || is_prefix_of("/boot/efi"@, mount)
}

/// Whether partition `p` counts toward the device named `dev`.
pub open spec fn belongs(p: PartitionSample, dev: Seq<char>) -> bool {
    !is_special_mount(p.mount_point@) && parent_name_of(p.name@) == dev
}

pub open spec fn belongs_sel(dev: Seq<char>) -> spec_fn(PartitionSample) -> bool {
    |p: PartitionSample| belongs(p, dev)
}

/// Whether partition `p` adds a mount point to the device named `dev`.
pub open spec fn lists_mount(p: PartitionSample, dev: Seq<char>) -> bool {
    belongs(p, dev) && p.mount_point@.len() > 0 && p.mount_point@ != "none"@
}

pub open spec fn mount_sel(dev: Seq<char>) -> spec_fn(PartitionSample) -> bool {
    |p: PartitionSample| lists_mount(p, dev)
}

pub open spec fn part_used() -> spec_fn(PartitionSample) -> u64 {
    |p: PartitionSample| if p.total_space >= p.available_space { (p.total_space - p.available_space) as u64 } else { 0 }
}

/// Mount points of the partitions of device `dev`, in partition order.
pub open spec fn mounts_of(parts: Seq<PartitionSample>, dev: Seq<char>) -> Seq<Seq<char>> {
    parts.filter(mount_sel(dev)).map_values(|p: PartitionSample| p.mount_point@)
}

/// Whether `d` is device `dev` with the partitions of `parts` merged in.
pub open spec fn merged(d: DiskMetrics, dev: DeviceSample, parts: Seq<PartitionSample>) -> bool {
    &&& d.name@ == dev.name@
    &&& d.model == dev.model
    &&& d.serial == dev.serial
    &&& d.total == dev.total
    &&& d.disk_type == dev.disk_type
    &&& d.used == saturate(sum_where(parts, belongs_sel(dev.name@), part_used()))
    &&& texts(d.mount_points@) == mounts_of(parts, dev.name@)
}

fn copy_text(o: &Option<String>) -> (r: Option<String>)
    ensures
        r == *o,
{
    match o {
        Some(s) => Some(s.clone()),
        None => None,
    }
}

/// Computes `is_special_mount`.
fn special_mount(mount: &str) -> (r: bool)
    ensures
        r == is_special_mount(mount@),
{
    starts_with(mount, "/snap") || starts_with(mount, "/boot/efi")
}

/// Device `dev` with the partitions of `parts` merged in.
pub fn merge_device(dev: &DeviceSample, parts: &Vec<PartitionSample>) -> (r: DiskMetrics)
    ensures
        merged(r, *dev, parts@),
{
    let ghost sel = belongs_sel(dev.name@);
    let mut used: u128 = 0;
    let mut mounts: Vec<String> = Vec::new();
    let mut i: usize = 0;
    while i < parts.len()
        invariant
            i <= parts.len(),
            sel == belongs_sel(dev.name@),
            used == sum_where(parts@.subrange(0, i as int), sel, part_used()),
            used <= i * 0xFFFF_FFFF_FFFF_FFFFnat,
            texts(mounts@) == mounts_of(parts@.subrange(0, i as int), dev.name@),
        decreases parts.len() - i,
    {
        let ghost pre = parts@.subrange(0, i as int);
        let ghost next = parts@.subrange(0, i + 1);
        assert(next.drop_last() =~= pre);
        assert(next.last() == parts@[i as int]);
        reveal(Seq::filter);
        let p = &parts[i];
        let counts = !special_mount(p.mount_point.as_str()) && {
            let parent = parent_device(p.name.as_str());
            same_text(parent.as_str(), dev.name.as_str())
        };
        let ghost before = mounts@;
        let mut listed = false;
        if counts {
            let part: u64 = if p.total_space >= p.available_space { p.total_space - p.available_space } else { 0 };
            used = used + part as u128;
            if p.mount_point.unicode_len() > 0 && !same_text(p.mount_point.as_str(), "none") {
                mounts.push(p.mount_point.clone());
                listed = true;
            }
        }
        if listed {
            assert(mount_sel(dev.name@)(parts@[i as int]));
            assert(next.filter(mount_sel(dev.name@)) == pre.filter(mount_sel(dev.name@)).push(parts@[i as int]));
            assert(mounts@ == before.push(parts@[i as int].mount_point));
            assert(texts(mounts@) =~= texts(before).push(parts@[i as int].mount_point@));
            assert(mounts_of(next, dev.name@) =~= mounts_of(pre, dev.name@).push(parts@[i as int].mount_point@));
        } else {
            assert(!mount_sel(dev.name@)(parts@[i as int]));
            assert(next.filter(mount_sel(dev.name@)) == pre.filter(mount_sel(dev.name@)));
        }
        assert(texts(mounts@) =~= mounts_of(next, dev.name@));
        i = i + 1;
    }
    assert(parts@.subrange(0, parts.len() as int) =~= parts@);
    DiskMetrics {
        name: dev.name.clone(),
        model: copy_text(&dev.model),
        serial: copy_text(&dev.serial),
        total: dev.total,
        disk_type: copy_text(&dev.disk_type),
        mount_points: mounts,
        used: if used > u64::MAX as u128 { u64::MAX } else { used as u64 },
    }
}

/// The physical disks among `devices` (pseudo devices and zero-sized ones dropped),
/// in their order, each with the partitions of `parts` merged in by device name.
pub fn collect_physical_disks(devices: &Vec<DeviceSample>, parts: &Vec<PartitionSample>) -> (r: Vec<DiskMetrics>)
    ensures
        r@.len() == devices@.filter(reported_sel()).len(),
        forall|k: int| 0 <= k < r@.len() ==> merged(#[trigger] r@[k], devices@.filter(reported_sel())[k], parts@),
{
    let mut out: Vec<DiskMetrics> = Vec::new();
    let mut i: usize = 0;
    while i < devices.len()
        invariant
            i <= devices.len(),
            out@.len() == devices@.subrange(0, i as int).filter(reported_sel()).len(),
            forall|k: int|
                0 <= k < out@.len() ==> merged(#[trigger] out@[k], devices@.subrange(0, i as int).filter(reported_sel())[k], parts@),
        decreases devices.len() - i,
    {
        let ghost pre = devices@.subrange(0, i as int);
        let ghost next = devices@.subrange(0, i + 1);
        assert(next.drop_last() =~= pre);
        assert(next.last() == devices@[i as int]);
        reveal(Seq::filter);
        let d = &devices[i];
        if !pseudo_device(d.name.as_str()) && d.total > 0 {
            out.push(merge_device(d, parts));
            assert(next.filter(reported_sel()) == pre.filter(reported_sel()).push(devices@[i as int]));
        } else {
            assert(next.filter(reported_sel()) == pre.filter(reported_sel()));
        }
        i = i + 1;
    }
    assert(devices@.subrange(0, devices.len() as int) =~= devices@);
    out
}

/// Share of `total` that `used` is, in hundredths of a percent (0 for an empty disk).
pub open spec fn usage_of(used: u64, total: u64) -> u64 {
    if total == 0 { 0 } else { saturate(used as nat * 10000 / total as nat) }
}

/// Computes `usage_of`.
pub fn usage_hundredths(used: u64, total: u64) -> (r: u64)
    ensures
        r == usage_of(used, total),
{
    if total == 0 {
        return 0;
    }
    let q: u128 = (used as u128) * 10000 / (total as u128);
    if q > u64::MAX as u128 { u64::MAX } else { q as u64 }
}

} // verus!
