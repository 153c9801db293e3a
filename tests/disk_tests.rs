use vstats::disk::{
    base_device, collect_physical_disks, detect_disk_type, parent_device, pseudo_device, usage_hundredths, DeviceSample,
    PartitionSample,
};

fn dev(name: &str, total: u64) -> DeviceSample {
    DeviceSample { name: name.to_string(), model: Some("M".to_string()), serial: None, total, disk_type: Some("SSD".to_string()) }
}

fn part(name: &str, mount: &str, total: u64, avail: u64) -> PartitionSample {
    PartitionSample { name: name.to_string(), mount_point: mount.to_string(), total_space: total, available_space: avail }
}

#[test]
fn parent_device_names() {
    assert_eq!(parent_device("/dev/sda1"), "sda");
    assert_eq!(parent_device("sdb12"), "sdb");
    assert_eq!(parent_device("/dev/nvme0n1p1"), "nvme0n1");
    assert_eq!(parent_device("/dev/nvme1n1"), "nvme1n1");
    assert_eq!(parent_device("/dev/vda"), "vda");
}

#[test]
fn pseudo_devices() {
    assert!(pseudo_device("loop0"));
    assert!(pseudo_device("ram1"));
    assert!(pseudo_device("dm-0"));
    assert!(pseudo_device("sr0"));
    assert!(pseudo_device("fd0"));
    assert!(!pseudo_device("sda"));
    assert!(!pseudo_device("nvme0n1"));
}

#[test]
fn partitions_merge_into_their_disks() {
    let devices = vec![dev("sda", 1000), dev("loop0", 50), dev("nvme0n1", 2000), dev("sdz", 0)];
    let parts = vec![
        part("/dev/sda1", "/", 600, 200),
        part("/dev/sda2", "/home", 300, 100),
        part("/dev/sda3", "/boot/efi", 100, 0),
        part("/dev/nvme0n1p1", "/data", 2000, 1500),
        part("/dev/loop0", "/snap/core", 50, 0),
        part("/dev/sdc1", "/mnt", 10, 0),
    ];
    let disks = collect_physical_disks(&devices, &parts);
    assert_eq!(disks.len(), 2);
    assert_eq!(disks[0].name, "sda");
    assert_eq!(disks[0].used, 600);
    assert_eq!(disks[0].mount_points, vec!["/".to_string(), "/home".to_string()]);
    assert_eq!(disks[0].model.as_deref(), Some("M"));
    assert_eq!(disks[1].name, "nvme0n1");
    assert_eq!(disks[1].used, 500);
    assert_eq!(disks[1].mount_points, vec!["/data".to_string()]);
}

#[test]
fn empty_and_none_mounts_count_usage_only() {
    let devices = vec![dev("sda", 1000)];
    let parts = vec![part("sda1", "", 100, 40), part("sda2", "none", 100, 40), part("sda3", "/x", 10, 20)];
    let disks = collect_physical_disks(&devices, &parts);
    assert_eq!(disks[0].used, 120);
    assert_eq!(disks[0].mount_points, vec!["/x".to_string()]);
}

#[test]
fn usage_in_hundredths() {
    assert_eq!(usage_hundredths(600, 1000), 6000);
    assert_eq!(usage_hundredths(1, 3), 3333);
    assert_eq!(usage_hundredths(5, 0), 0);
}

#[test]
fn disk_types() {
    assert_eq!(detect_disk_type("/dev/nvme0n1", Some("0")), Some("NVMe"));
    assert_eq!(detect_disk_type("/dev/sda", Some("0")), Some("SSD"));
    assert_eq!(detect_disk_type("/dev/sdb", Some("1")), Some("HDD"));
    assert_eq!(detect_disk_type("/dev/sdb", Some("x")), None);
    assert_eq!(detect_disk_type("/dev/vda", None), Some("SSD"));
    assert_eq!(detect_disk_type("/dev/xvdb1", None), Some("SSD"));
    assert_eq!(detect_disk_type("/dev/sdc", None), None);
    assert_eq!(base_device("/dev/sda3"), "sda");
}
