use deltaos::fs::ntfs::{
    mount_ntfs, JournalOperation, MftRecord, NtfsAttributeType, NtfsBpb, NtfsInode, NtfsJournal,
    NtfsVolume, JOURNAL_CAPACITY,
};
use deltaos::fs::vfs::{
    FileSystem, FileSystemType, FileType, Inode, MountFlags, OpenFlags, Vfs, OPEN_READ_ONLY,
};
use deltaos::KernelError;

fn boot_sector() -> Vec<u8> {
    let mut b = vec![0u8; 512];
    b[3..11].copy_from_slice(b"NTFS    ");
    b[11] = 0x00;
    b[12] = 0x02;
    b[13] = 8;
    b[40] = 0x00;
    b[41] = 0x10; // 4096 sectors
    b[48] = 4; // MFT at cluster 4
    b[64] = 0xF6; // records of 2^10 bytes
    b[72] = 0xAB;
    b
}

#[test]
fn bpb_parse_reads_the_boot_sector() {
    let bpb = NtfsBpb::parse(&boot_sector()).unwrap();
    assert_eq!(bpb.bytes_per_sector, 512);
    assert_eq!(bpb.sectors_per_cluster, 8);
    assert_eq!(bpb.cluster_size, 4096);
    assert_eq!(bpb.total_sectors, 4096);
    assert_eq!(bpb.mft_start_cluster, 4);
    assert_eq!(bpb.mft_record_size, -10);
    assert_eq!(bpb.volume_serial, 0xAB);
    assert_eq!(bpb.mft_record_size_bytes(), 1024);
}

#[test]
fn bpb_parse_errors() {
    assert_eq!(NtfsBpb::parse(&[0u8; 100]), Err(KernelError::IoError));
    let mut b = boot_sector();
    b[3] = b'X';
    assert_eq!(NtfsBpb::parse(&b), Err(KernelError::FileSystemNotFound));
}

#[test]
fn bpb_record_size_in_clusters() {
    let mut b = boot_sector();
    b[64] = 2;
    let bpb = NtfsBpb::parse(&b).unwrap();
    assert_eq!(bpb.mft_record_size_bytes(), 1024);
}

#[test]
fn attribute_type_codes() {
    assert_eq!(NtfsAttributeType::from(0x80u32), NtfsAttributeType::Data);
    assert_eq!(NtfsAttributeType::from(0x30u32), NtfsAttributeType::FileName);
    assert_eq!(NtfsAttributeType::from(0x1234u32), NtfsAttributeType::End);
    assert_eq!(NtfsAttributeType::Data.code(), 0x80);
}

#[test]
fn run_list_decodes_lengths_and_signed_offsets() {
    let vol = NtfsVolume::new(&boot_sector(), 0).unwrap();
    let runs = vol.parse_run_list(&[0x21, 0x10, 0x00, 0x01, 0x11, 0x05, 0xFF, 0x00]);
    assert_eq!(runs.len(), 2);
    assert_eq!(runs[0].length, 0x10);
    assert_eq!(runs[0].offset, 0x100);
    assert_eq!(runs[1].length, 5);
    assert_eq!(runs[1].offset, -1);
    // A run without an offset, then a header that does not fit.
    let runs = vol.parse_run_list(&[0x01, 0x07, 0x22, 0x01]);
    assert_eq!(runs.len(), 1);
    assert_eq!(runs[0].length, 7);
    assert_eq!(runs[0].offset, 0);
}

fn record_bytes() -> Vec<u8> {
    let mut d = vec![0u8; 1024];
    d[0..4].copy_from_slice(b"FILE");
    d[0x10] = 3; // sequence number
    d[0x14] = 0x38; // first attribute
    d[0x16] = 1; // in use
    d[0x18] = 0x60; // bytes in use
    let a = 0x38;
    d[a] = 0x80; // data
    d[a + 4] = 0x20; // total size
    d[a + 0x10] = 5; // content size
    d[a + 0x14] = 0x18; // content offset
    d[a + 0x18..a + 0x1D].copy_from_slice(b"hello");
    d[0x58..0x5C].copy_from_slice(&[0xFF, 0xFF, 0xFF, 0xFF]);
    d
}

#[test]
fn mft_record_with_resident_data() {
    let vol = NtfsVolume::new(&boot_sector(), 0).unwrap();
    let rec = vol.parse_mft_record(&record_bytes()).unwrap();
    assert_eq!(rec.record_number, 0);
    assert_eq!(rec.sequence_number, 3);
    assert_eq!(rec.flags, 1);
    assert_eq!(rec.bytes_in_use, 0x60);
    assert_eq!(rec.attributes.len(), 1);
    let a = &rec.attributes[0];
    assert_eq!(a.attr_type, NtfsAttributeType::Data);
    assert!(!a.non_resident);
    assert_eq!(a.name, None);
    assert_eq!(a.resident_data.as_deref(), Some(&b"hello"[..]));
    assert_eq!(a.data_size, 5);
}

#[test]
fn mft_record_errors() {
    let vol = NtfsVolume::new(&boot_sector(), 0).unwrap();
    assert!(matches!(vol.parse_mft_record(&[0u8; 100]), Err(KernelError::IoError)));
    let mut d = record_bytes();
    d[0] = b'X';
    assert!(matches!(vol.parse_mft_record(&d), Err(KernelError::IoError)));
}

#[test]
fn inode_reads_resident_data() {
    let vol = NtfsVolume::new(&boot_sector(), 0).unwrap();
    let rec: MftRecord = vol.parse_mft_record(&record_bytes()).unwrap();
    let inode = NtfsInode::from_mft_record(&rec, 4096);
    let md = inode.metadata().unwrap();
    assert_eq!(md.size, 5);
    assert_eq!(md.file_type, FileType::Regular);
    let mut buf = [0u8; 3];
    assert_eq!(inode.read(1, &mut buf), Ok(3));
    assert_eq!(&buf, b"ell");
    let mut big = [9u8; 8];
    assert_eq!(inode.read(3, &mut big), Ok(2));
    assert_eq!(&big[..3], b"lo\x09");
    assert_eq!(inode.read(10, &mut big), Ok(0));
}

#[test]
fn inode_reads_runs_as_zeros() {
    let vol = NtfsVolume::new(&boot_sector(), 0).unwrap();
    let rec = vol.parse_mft_record(&record_bytes()).unwrap();
    let inode = NtfsInode::from_mft_record(&rec, 4096);
    let runs = vol.parse_run_list(&[0x11, 0x01, 0x02]);
    let mut buf = [7u8; 10];
    assert_eq!(inode.read_from_runs(&runs, 0, &mut buf), Ok(10));
    assert_eq!(buf, [0u8; 10]);
    let mut buf = [7u8; 10];
    // The run covers bytes 8192..12288: a read from 12288 on finds nothing.
    assert_eq!(inode.read_from_runs(&runs, 12288, &mut buf), Ok(0));
    assert_eq!(buf, [7u8; 10]);
}

#[test]
fn inode_without_data_is_not_found() {
    let vol = NtfsVolume::new(&boot_sector(), 0).unwrap();
    let root = vol.root_inode();
    let md = root.metadata().unwrap();
    assert_eq!(md.inode, 5);
    assert_eq!(md.file_type, FileType::Directory);
    let mut buf = [0u8; 4];
    assert_eq!(root.read(0, &mut buf), Err(KernelError::FileNotFound));
}

#[test]
fn timestamps_and_file_names() {
    let secs: u64 = 11644473600 + 100;
    let raw = secs * 10_000_000;
    let mut data = vec![0u8; 16];
    data[8..16].copy_from_slice(&raw.to_le_bytes());
    assert_eq!(NtfsInode::parse_timestamp(&data, 8), 100);
    assert_eq!(NtfsInode::parse_timestamp(&data, 0), 0);
    assert_eq!(NtfsInode::parse_timestamp(&data, 9), 0);
    let mut name = vec![0u8; 70];
    name[64] = 2;
    name[66] = b'h';
    name[68] = b'i';
    assert_eq!(NtfsInode::parse_file_name(&name), "hi");
    assert_eq!(NtfsInode::parse_file_name(&[0u8; 10]), "unknown");
}

#[test]
fn journal_keeps_latest_entries() {
    let mut j = NtfsJournal::new();
    j.log(JournalOperation::FileCreate, "a.txt", b"x");
    j.checkpoint();
    let e = j.get_entries();
    assert_eq!(e.len(), 2);
    assert_eq!(e[0].lsn, 0);
    assert_eq!(e[0].file_name, "a.txt");
    assert_eq!(e[0].data, b"x".to_vec());
    assert_eq!(e[1].lsn, 1);
    assert!(matches!(e[1].operation, JournalOperation::Checkpoint));
    for _ in 0..JOURNAL_CAPACITY {
        j.log(JournalOperation::FileWrite, "b", &[]);
    }
    let e = j.get_entries();
    assert_eq!(e.len(), JOURNAL_CAPACITY);
    assert_eq!(e[0].lsn, 2);
    assert_eq!(e[JOURNAL_CAPACITY - 1].lsn, (JOURNAL_CAPACITY + 1) as u64);
}

#[test]
fn volume_records_and_stats() {
    let mut vol = NtfsVolume::new(&boot_sector(), 3).unwrap();
    let root = vol.get_mft_record(5).unwrap();
    assert_eq!(root.record_number, 5);
    assert_eq!(root.flags, 3);
    assert!(matches!(vol.get_mft_record(7), Err(KernelError::FileNotFound)));
    let st = vol.statfs().unwrap();
    assert_eq!(st.total_size, 4096 * 512);
    assert_eq!(st.block_size, 4096);
    assert_eq!(st.max_name_length, 255);
    assert_eq!(vol.fs_type(), FileSystemType::NTFS);
    assert_eq!(vol.label(), "NTFS");
    assert!(vol.sync().is_ok());
}

#[test]
fn mount_open_read_close() {
    let mut vfs: Vfs<NtfsVolume> = Vfs::new();
    assert_eq!(mount_ntfs(&mut vfs, 0), Ok(()));
    assert_eq!(mount_ntfs(&mut vfs, 1), Err(KernelError::PageAlreadyMapped));
    let mounts = vfs.list_mounts();
    assert_eq!(mounts.len(), 1);
    assert_eq!(mounts[0].0, "/");
    assert_eq!(mounts[0].1, FileSystemType::NTFS);
    let st = vfs.statfs("/").unwrap();
    assert_eq!(st.block_size, 4096);
    let fd = vfs.open("/", OpenFlags::from_bits_retain(OPEN_READ_ONLY)).unwrap();
    assert_eq!(fd, 3);
    let mut buf = [0u8; 4];
    assert_eq!(vfs.read(fd, &mut buf), Err(KernelError::FileNotFound));
    assert_eq!(vfs.readdir("/").unwrap().len(), 0);
    assert_eq!(vfs.close(fd), Ok(()));
    assert_eq!(vfs.close(fd), Err(KernelError::InvalidArgument));
    assert_eq!(vfs.read(fd, &mut buf), Err(KernelError::InvalidArgument));
}

#[test]
fn vfs_open_without_mount_fails() {
    let mut vfs: Vfs<NtfsVolume> = Vfs::new();
    assert_eq!(
        vfs.open("/x", OpenFlags::from_bits_retain(OPEN_READ_ONLY)),
        Err(KernelError::FileSystemNotFound)
    );
    let vol = NtfsVolume::new(&boot_sector(), 0).unwrap();
    assert_eq!(vfs.mount("/disk", vol, MountFlags::default()), Ok(()));
    assert_eq!(vfs.unmount("/disk"), Ok(()));
    assert!(vfs.list_mounts().is_empty());
}

#[test]
fn vfs_access_and_mount_order() {
    let mut vfs: Vfs<NtfsVolume> = Vfs::new();
    let v1 = NtfsVolume::new(&boot_sector(), 0).unwrap();
    let v2 = NtfsVolume::new(&boot_sector(), 1).unwrap();
    let v3 = NtfsVolume::new(&boot_sector(), 2).unwrap();
    assert_eq!(vfs.mount("/mnt", v1, MountFlags::default()), Ok(()));
    assert_eq!(vfs.mount("/", v2, MountFlags::default()), Ok(()));
    assert_eq!(vfs.mount("/dev", v3, MountFlags::default()), Ok(()));
    let names: Vec<String> = vfs.list_mounts().into_iter().map(|m| m.0).collect();
    assert_eq!(names, vec!["/", "/dev", "/mnt"]);
    assert_eq!(vfs.unmount("/dev"), Ok(()));
    assert_eq!(vfs.unmount("/dev"), Err(KernelError::FileSystemNotFound));
    let names: Vec<String> = vfs.list_mounts().into_iter().map(|m| m.0).collect();
    assert_eq!(names, vec!["/", "/mnt"]);
    // Opened write-only: reading is refused before the inode is asked.
    let fd = vfs.open("/", OpenFlags::from_bits_retain(0x02)).unwrap();
    let mut buf = [7u8; 4];
    assert_eq!(vfs.read(fd, &mut buf), Err(KernelError::AccessDenied));
    assert_eq!(buf, [7u8; 4]);
    // The NTFS inode refuses writes.
    assert_eq!(vfs.write(fd, &[1, 2]), Err(KernelError::IoError));
    // Opened read-only: writing is refused.
    let fd2 = vfs.open("/mnt", OpenFlags::from_bits_retain(OPEN_READ_ONLY)).unwrap();
    assert_eq!(fd2, fd + 1);
    assert_eq!(vfs.write(fd2, &[1]), Err(KernelError::AccessDenied));
    // A path below the root: the NTFS root finds no entries.
    assert_eq!(
        vfs.open("/mnt/file", OpenFlags::from_bits_retain(OPEN_READ_ONLY)),
        Err(KernelError::FileNotFound)
    );
}

#[test]
fn descriptor_numbers_count_successful_opens() {
    let mut vfs: Vfs<NtfsVolume> = Vfs::new();
    assert_eq!(mount_ntfs(&mut vfs, 0), Ok(()));
    let ro = OpenFlags::from_bits_retain(OPEN_READ_ONLY);
    assert_eq!(vfs.open("/", ro), Ok(3));
    assert_eq!(vfs.open("/missing", ro), Err(KernelError::FileNotFound));
    assert_eq!(vfs.close(3), Ok(()));
    assert_eq!(vfs.open("/", ro), Ok(4));
    assert_eq!(vfs.open("/", ro), Ok(5));
}

#[test]
fn journal_keeps_the_latest_entries() {
    let mut j = NtfsJournal::new();
    for _ in 0..1030 {
        j.log(JournalOperation::FileWrite, "f", &[1]);
    }
    let e = j.get_entries();
    assert_eq!(e.len(), 1024);
    assert_eq!(e[0].lsn, 6);
    assert_eq!(e[1023].lsn, 1029);
    j.checkpoint();
    let e = j.get_entries();
    assert_eq!(e.len(), 1024);
    assert_eq!(e[0].lsn, 7);
    assert_eq!(e[1023].lsn, 1030);
    assert!(matches!(e[1023].operation, JournalOperation::Checkpoint));
    assert!(e[1023].file_name.is_empty() && e[1023].data.is_empty());
}
