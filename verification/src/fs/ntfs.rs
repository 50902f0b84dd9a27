//! NTFS structures: boot sector, MFT records and their attributes, data runs,
//! a bounded operation journal, and the volume as a mountable file system.
use vstd::prelude::*;

use super::vfs::{
    DirEntry, FileMetadata, FileOffset, FilePermissions, FileSystem, FileSystemStats,
    FileSystemType, FileType, Inode, MountFlags, Vfs, VfsView, mounted_at,
};
use crate::bytes::{le16, le32, le64, read_u16, read_u32, read_u64};
use crate::text::{char_from_u32, is_scalar, push_char};
use crate::{KernelError, KernelResult};

verus! {

pub const MFT_NUMBER_MFT: u64 = 0;
pub const MFT_NUMBER_MFTMIRR: u64 = 1;
pub const MFT_NUMBER_LOGFILE: u64 = 2;
pub const MFT_NUMBER_VOLUME: u64 = 3;
pub const MFT_NUMBER_ROOT: u64 = 5;
pub const MFT_RECORD_SIZE: usize = 1024;
/// "FILE" read as a little-endian word.
pub const MFT_RECORD_SIGNATURE: u32 = 0x454C4946;
/// Entries the journal keeps before it drops the oldest.
pub const JOURNAL_CAPACITY: usize = 1024;

#[derive(Debug, Clone, Copy, PartialEq, Eq, Structural)]
pub enum NtfsAttributeType {
    StandardInformation,
    AttributeList,
    FileName,
    ObjectId,
    SecurityDescriptor,
    VolumeName,
    VolumeInformation,
    Data,
    IndexRoot,
    IndexAllocation,
    Bitmap,
    ReparsePoint,
    EaInformation,
    Ea,
    LoggedUtilityStream,
    End,
}

/// The attribute type with this on-disk code; unknown codes read as `End`.
pub open spec fn attr_type_of(v: u32) -> NtfsAttributeType {
    if v == 0x10 {
        NtfsAttributeType::StandardInformation
    } else if v == 0x20 {
        NtfsAttributeType::AttributeList
    } else if v == 0x30 {
        NtfsAttributeType::FileName
    } else if v == 0x40 {
        NtfsAttributeType::ObjectId
    } else if v == 0x50 {
        NtfsAttributeType::SecurityDescriptor
    } else if v == 0x60 {
        NtfsAttributeType::VolumeName
    } else if v == 0x70 {
        NtfsAttributeType::VolumeInformation
    } else if v == 0x80 {
        NtfsAttributeType::Data
    } else if v == 0x90 {
        NtfsAttributeType::IndexRoot
    } else if v == 0xA0 {
        NtfsAttributeType::IndexAllocation
    } else if v == 0xB0 {
        NtfsAttributeType::Bitmap
    } else if v == 0xC0 {
        NtfsAttributeType::ReparsePoint
    } else if v == 0xD0 {
        NtfsAttributeType::EaInformation
    } else if v == 0xE0 {
        NtfsAttributeType::Ea
    } else if v == 0x100 {
        NtfsAttributeType::LoggedUtilityStream
    } else {
        NtfsAttributeType::End
    }
}

impl vstd::std_specs::convert::FromSpecImpl<u32> for NtfsAttributeType {
    open spec fn obeys_from_spec() -> bool {
        true
    }

    open spec fn from_spec(v: u32) -> Self {
        attr_type_of(v)
    }
}

impl From<u32> for NtfsAttributeType {
    fn from(v: u32) -> (r: Self) {
        match v {
            0x10 => NtfsAttributeType::StandardInformation,
            0x20 => NtfsAttributeType::AttributeList,
            0x30 => NtfsAttributeType::FileName,
            0x40 => NtfsAttributeType::ObjectId,
            0x50 => NtfsAttributeType::SecurityDescriptor,
            0x60 => NtfsAttributeType::VolumeName,
            0x70 => NtfsAttributeType::VolumeInformation,
            0x80 => NtfsAttributeType::Data,
            0x90 => NtfsAttributeType::IndexRoot,
            0xA0 => NtfsAttributeType::IndexAllocation,
            0xB0 => NtfsAttributeType::Bitmap,
            0xC0 => NtfsAttributeType::ReparsePoint,
            0xD0 => NtfsAttributeType::EaInformation,
            0xE0 => NtfsAttributeType::Ea,
            0x100 => NtfsAttributeType::LoggedUtilityStream,
            _ => NtfsAttributeType::End,
        }
    }
}

impl NtfsAttributeType {
    /// The on-disk code of this attribute type.
    pub fn code(&self) -> (r: u32)
        ensures
            attr_type_of(r) == *self,
    {
        match self {
            NtfsAttributeType::StandardInformation => 0x10,
            NtfsAttributeType::AttributeList => 0x20,
            NtfsAttributeType::FileName => 0x30,
            NtfsAttributeType::ObjectId => 0x40,
            NtfsAttributeType::SecurityDescriptor => 0x50,
            NtfsAttributeType::VolumeName => 0x60,
            NtfsAttributeType::VolumeInformation => 0x70,
            NtfsAttributeType::Data => 0x80,
            NtfsAttributeType::IndexRoot => 0x90,
            NtfsAttributeType::IndexAllocation => 0xA0,
            NtfsAttributeType::Bitmap => 0xB0,
            NtfsAttributeType::ReparsePoint => 0xC0,
            NtfsAttributeType::EaInformation => 0xD0,
            NtfsAttributeType::Ea => 0xE0,
            NtfsAttributeType::LoggedUtilityStream => 0x100,
            NtfsAttributeType::End => 0xFFFFFFFF,
        }
    }
}

/// Flag bits of an MFT record header.
#[derive(Debug, Clone, Copy)]
pub struct MftRecordFlags;

impl MftRecordFlags {
    pub const IN_USE: u16 = 0x0001;
    pub const IS_DIRECTORY: u16 = 0x0002;
    pub const IS_EXTENSION: u16 = 0x0004;
    pub const HAS_INDEX: u16 = 0x0008;
}

/// Flag bits of an attribute header.
#[derive(Debug, Clone, Copy)]
pub struct AttributeFlags;

impl AttributeFlags {
    pub const COMPRESSED: u16 = 0x0001;
    pub const ENCRYPTED: u16 = 0x4000;
    pub const SPARSE: u16 = 0x8000;
}

/// The BIOS parameter block of an NTFS boot sector.
#[derive(Debug, Clone, Copy, PartialEq, Eq, Structural)]
pub struct NtfsBpb {
    pub bytes_per_sector: u16,
    pub sectors_per_cluster: u8,
    pub total_sectors: u64,
    pub mft_start_cluster: u64,
    pub mftmirr_start_cluster: u64,
    pub mft_record_size: i8,
    pub index_record_size: i8,
    pub volume_serial: u64,
    pub cluster_size: u32,
}

/// Bytes 3..11 of the boot sector read "NTFS    ".
pub open spec fn has_ntfs_signature(d: Seq<u8>) -> bool {
    d[3] == 0x4E && d[4] == 0x54 && d[5] == 0x46 && d[6] == 0x53 && d[7] == 0x20 && d[8] == 0x20 && d[9]
        == 0x20 && d[10] == 0x20
}

/// The boot sectors the parser accepts: where the record-size byte encodes a
/// power of two (zero or negative), that power is below 2^32.
pub open spec fn bpb_parsable(d: Seq<u8>) -> bool {
    d.len() >= 512 && has_ntfs_signature(d) ==> (d[64] as i8) > -32
}

/// The parameter block that a boot sector describes.
pub open spec fn bpb_of(d: Seq<u8>) -> NtfsBpb {
    NtfsBpb {
        bytes_per_sector: le16(d, 11) as u16,
        sectors_per_cluster: d[13],
        total_sectors: le64(d, 40) as u64,
        mft_start_cluster: le64(d, 48) as u64,
        mftmirr_start_cluster: le64(d, 56) as u64,
        mft_record_size: d[64] as i8,
        index_record_size: d[68] as i8,
        volume_serial: le64(d, 72) as u64,
        cluster_size: (le16(d, 11) * d[13]) as u32,
    }
}

impl NtfsBpb {
    /// Parses a boot sector: too short is an I/O error, a missing signature
    /// means no NTFS file system.
    pub fn parse(boot_sector: &[u8]) -> (r: KernelResult<Self>)
        requires
            bpb_parsable(boot_sector@),
        ensures
            r == if boot_sector@.len() < 512 {
                Err(KernelError::IoError)
            } else if !has_ntfs_signature(boot_sector@) {
                Err(KernelError::FileSystemNotFound)
            } else {
                Ok(bpb_of(boot_sector@))
            },
    {
        if boot_sector.len() < 512 {
            return Err(KernelError::IoError);
        }
        let sig: [u8; 8] = [0x4E, 0x54, 0x46, 0x53, 0x20, 0x20, 0x20, 0x20];
        let mut k: usize = 0;
        while k < 8
            invariant
                k <= 8,
                boot_sector@.len() >= 512,
                sig@ == seq![0x4Eu8, 0x54u8, 0x46u8, 0x53u8, 0x20u8, 0x20u8, 0x20u8, 0x20u8],
                forall|j: int| 0 <= j < k ==> boot_sector@[3 + j] == sig@[j],
            decreases 8 - k,
        {
            if boot_sector[3 + k] != sig[k] {
                return Err(KernelError::FileSystemNotFound);
            }
            k = k + 1;
        }
        assert(has_ntfs_signature(boot_sector@)) by {
            assert(boot_sector@[3 + 0int] == sig@[0]);
            assert(boot_sector@[3 + 1int] == sig@[1]);
            assert(boot_sector@[3 + 2int] == sig@[2]);
            assert(boot_sector@[3 + 3int] == sig@[3]);
            assert(boot_sector@[3 + 4int] == sig@[4]);
            assert(boot_sector@[3 + 5int] == sig@[5]);
            assert(boot_sector@[3 + 6int] == sig@[6]);
            assert(boot_sector@[3 + 7int] == sig@[7]);
        }
        let bytes_per_sector = read_u16(boot_sector, 11);
        let sectors_per_cluster = boot_sector[13];
        let total_sectors = read_u64(boot_sector, 40);
        let mft_start_cluster = read_u64(boot_sector, 48);
        let mftmirr_start_cluster = read_u64(boot_sector, 56);
        let mft_record_size_raw = boot_sector[64] as i8;
        let index_record_size_raw = boot_sector[68] as i8;
        let volume_serial = read_u64(boot_sector, 72);
        assert(bytes_per_sector * sectors_per_cluster <= 0xFFFF * 0xFF) by (nonlinear_arith)
            requires
                bytes_per_sector <= 0xFFFF,
                sectors_per_cluster <= 0xFF,
        ;
        let cluster_size = bytes_per_sector as u32 * sectors_per_cluster as u32;
        Ok(NtfsBpb {
            bytes_per_sector,
            sectors_per_cluster,
            total_sectors,
            mft_start_cluster,
            mftmirr_start_cluster,
            mft_record_size: mft_record_size_raw,
            index_record_size: index_record_size_raw,
            volume_serial,
            cluster_size,
        })
    }

    /// The byte size of an MFT record: clusters when positive, else a power of two.
    pub open spec fn record_size_ok(&self) -> bool {
        self.mft_record_size > 0 || 0 - (self.mft_record_size as int) < usize::BITS
    }

    pub open spec fn record_size_spec(&self) -> int {
        if self.mft_record_size > 0 {
            self.mft_record_size * self.bytes_per_sector
        } else {
            vstd::arithmetic::power2::pow2((0 - self.mft_record_size) as nat) as int
        }
    }

    pub fn mft_record_size_bytes(&self) -> (r: usize)
        requires
            self.record_size_ok(),
        ensures
            r == self.record_size_spec(),
    {
        if self.mft_record_size > 0 {
            let m = self.mft_record_size as usize;
            let b = self.bytes_per_sector as usize;
            assert(m * b <= 0x7F * 0xFFFF) by (nonlinear_arith)
                requires
                    m <= 0x7F,
                    b <= 0xFFFF,
            ;
            m * b
        } else {
            let k = (-(self.mft_record_size as i16)) as usize;
            proof {
                vstd::bits::lemma_usize_pow2_no_overflow(k as nat);
                vstd::bits::lemma_usize_shl_is_mul(1, k);
            }
            1usize << k
        }
    }
}

#[derive(Debug, Clone, Copy, PartialEq, Eq, Structural)]
pub struct DataRun {
    pub length: u64,
    pub offset: i64,
}


/// `256^n`.
pub open spec fn pow256(n: nat) -> nat
    decreases n,
{
    if n == 0 {
        1
    } else {
        256 * pow256((n - 1) as nat)
    }
}

/// The unsigned value of the `n` little-endian bytes of `d` from `s`.
pub open spec fn le_bytes(d: Seq<u8>, s: int, n: nat) -> nat
    decreases n,
{
    if n == 0 {
        0
    } else {
        d[s] as nat + 256 * le_bytes(d, s + 1, (n - 1) as nat)
    }
}

/// The two's-complement value of the `n` little-endian bytes of `d` from `s`.
pub open spec fn le_signed(d: Seq<u8>, s: int, n: nat) -> int {
    if n > 0 && d[s + n - 1] >= 0x80 {
        le_bytes(d, s, n) - pow256(n)
    } else {
        le_bytes(d, s, n) as int
    }
}

proof fn lemma_pow256_mono(i: nat, j: nat)
    requires
        i <= j,
    ensures
        pow256(i) <= pow256(j),
    decreases j,
{
    if i < j {
        lemma_pow256_mono(i, (j - 1) as nat);
    }
}

proof fn lemma_le_bytes_bound(d: Seq<u8>, s: int, n: nat)
    ensures
        le_bytes(d, s, n) < pow256(n),
    decreases n,
{
    if n > 0 {
        lemma_le_bytes_bound(d, s + 1, (n - 1) as nat);
    }
}

/// The top byte weighs `256^(n-1)`.
proof fn lemma_le_bytes_split(d: Seq<u8>, s: int, n: nat)
    requires
        n >= 1,
    ensures
        le_bytes(d, s, n) == le_bytes(d, s, (n - 1) as nat) + d[s + n - 1] * pow256((n - 1) as nat),
    decreases n,
{
    if n > 1 {
        lemma_le_bytes_split(d, s + 1, (n - 1) as nat);
        let a = le_bytes(d, s + 1, (n - 2) as nat) as int;
        let b = d[s + n - 1] as int;
        let c = pow256((n - 2) as nat) as int;
        assert(le_bytes(d, s + 1, (n - 1) as nat) == a + b * c);
        assert(le_bytes(d, s, n) == d[s] + 256 * (a + b * c));
        assert(le_bytes(d, s, (n - 1) as nat) == d[s] + 256 * a);
        assert(pow256((n - 1) as nat) == 256 * c);
        assert(256 * (a + b * c) == 256 * a + b * (256 * c)) by (nonlinear_arith);
    } else {
        assert(le_bytes(d, s, 1) == d[s] + 256 * le_bytes(d, s + 1, 0));
        assert(le_bytes(d, s, 0) == 0);
        assert(n == 1);
        assert(pow256((n - 1) as nat) == 1);
        assert(d[s + n - 1] == d[s]);
    }
}

proof fn lemma_pow256_facts()
    ensures
        pow256(7) == 0x100_0000_0000_0000,
        pow256(8) == 0x1_0000_0000_0000_0000,
{
    reveal_with_fuel(pow256, 9);
}

/// The `n` little-endian bytes of `d` from `s` as an unsigned value.
fn read_le(d: &[u8], s: usize, n: usize) -> (r: u64)
    requires
        n <= 8,
        s + n <= d@.len(),
    ensures
        r == le_bytes(d@, s as int, n as nat),
{
    let len = d.len();
    let mut acc: u64 = 0;
    let mut k: usize = n;
    while k > 0
        invariant
            k <= n <= 8,
            len == d@.len(),
            s + n <= d@.len(),
            acc == le_bytes(d@, s + k, (n - k) as nat),
        decreases k,
    {
        k = k - 1;
        proof {
            lemma_le_bytes_bound(d@, s + k + 1, (n - k - 1) as nat);
            lemma_pow256_mono((n - k - 1) as nat, 7);
            lemma_pow256_facts();
        }
        acc = acc * 256 + d[s + k] as u64;
    }
    acc
}

/// `256^n` for `n` below 8.
fn pow256_exec(n: usize) -> (r: u64)
    requires
        n < 8,
    ensures
        r == pow256(n as nat),
{
    let mut p: u64 = 1;
    let mut i: usize = 0;
    while i < n
        invariant
            i <= n < 8,
            p == pow256(i as nat),
        decreases n - i,
    {
        proof {
            lemma_pow256_mono(i as nat, 6);
            reveal_with_fuel(pow256, 7);
        }
        p = p * 256;
        i = i + 1;
    }
    p
}

/// The `n` little-endian bytes of `d` from `s` as a two's-complement value.
fn read_le_signed(d: &[u8], s: usize, n: usize) -> (r: i64)
    requires
        1 <= n <= 8,
        s + n <= d@.len(),
        !(n == 8 && d@[s + 7] >= 0x80),
    ensures
        r == le_signed(d@, s as int, n as nat),
{
    let len = d.len();
    let v = read_le(d, s, n);
    proof {
        lemma_le_bytes_bound(d@, s as int, n as nat);
        lemma_le_bytes_bound(d@, s as int, (n - 1) as nat);
        lemma_le_bytes_split(d@, s as int, n as nat);
        lemma_pow256_mono((n - 1) as nat, 7);
        lemma_pow256_mono(n as nat, 8);
        lemma_pow256_facts();
    }
    if d[s + n - 1] >= 0x80 {
        proof {
            lemma_pow256_mono(n as nat, 7);
        }
        let p = pow256_exec(n);
        (v as i64) - (p as i64)
    } else {
        assert(le_bytes(d@, s as int, n as nat) < 0x8000_0000_0000_0000) by (nonlinear_arith)
            requires
                le_bytes(d@, s as int, n as nat) == le_bytes(d@, s as int, (n - 1) as nat) + d@[s + n - 1] * pow256((n - 1) as nat),
                le_bytes(d@, s as int, (n - 1) as nat) < pow256((n - 1) as nat),
                d@[s + n - 1] < 0x80,
                pow256((n - 1) as nat) <= 0x100_0000_0000_0000,
        ;
        v as i64
    }
}

/// The data runs of a run list, decoded from byte `off` on: each run is a
/// header byte (low nibble: bytes of the length, high nibble: bytes of the
/// offset), the length, then the signed cluster offset from the previous run.
/// Decoding stops at a zero header or at a run that does not fit.
pub open spec fn runs_from(d: Seq<u8>, off: int) -> Seq<DataRun>
    decreases d.len() - off,
{
    if off < 0 || off >= d.len() || d[off] == 0 {
        Seq::empty()
    } else {
        let sl = d[off] % 16;
        let ol = d[off] / 16;
        let p = off + 1;
        if sl == 0 || p + sl > d.len() {
            Seq::empty()
        } else {
            let length = le_bytes(d, p, sl as nat) as u64;
            let q = p + sl;
            if ol == 0 {
                seq![DataRun { length, offset: 0 }] + runs_from(d, q)
            } else if q + ol > d.len() {
                Seq::empty()
            } else {
                seq![DataRun { length, offset: le_signed(d, q, ol as nat) as i64 }] + runs_from(d, q + ol)
            }
        }
    }
}

/// Decoding from `off` reaches a run whose length takes more than eight
/// bytes, or whose offset takes more than eight, or eight with the sign bit
/// set: values a 64-bit run cannot hold.
pub open spec fn runs_overflow(d: Seq<u8>, off: int) -> bool
    decreases d.len() - off,
{
    if off < 0 || off >= d.len() || d[off] == 0 {
        false
    } else {
        let sl = d[off] % 16;
        let ol = d[off] / 16;
        let p = off + 1;
        if sl == 0 || p + sl > d.len() {
            false
        } else if sl > 8 {
            true
        } else {
            let q = p + sl;
            if ol == 0 {
                runs_overflow(d, q)
            } else if q + ol > d.len() {
                false
            } else if ol > 8 || (ol == 8 && d[q + 7] >= 0x80) {
                true
            } else {
                runs_overflow(d, q + ol)
            }
        }
    }
}


/// One attribute of an MFT record.
#[derive(Debug)]
pub struct NtfsAttribute {
    pub attr_type: NtfsAttributeType,
    pub total_size: u32,
    pub non_resident: bool,
    pub name: Option<String>,
    pub resident_data: Option<Vec<u8>>,
    pub run_list: Vec<DataRun>,
    pub data_size: u64,
    pub initialized_size: u64,
}

/// An attribute as plain values.
pub struct AttrView {
    pub attr_type: NtfsAttributeType,
    pub total_size: u32,
    pub non_resident: bool,
    pub name: Option<Seq<char>>,
    pub resident_data: Option<Seq<u8>>,
    pub run_list: Seq<DataRun>,
    pub data_size: u64,
    pub initialized_size: u64,
}

impl View for NtfsAttribute {
    type V = AttrView;

    open spec fn view(&self) -> AttrView {
        AttrView {
            attr_type: self.attr_type,
            total_size: self.total_size,
            non_resident: self.non_resident,
            name: match self.name {
                Some(s) => Some(s@),
                None => None,
            },
            resident_data: match self.resident_data {
                Some(v) => Some(v@),
                None => None,
            },
            run_list: self.run_list@,
            data_size: self.data_size,
            initialized_size: self.initialized_size,
        }
    }
}

fn copy_bytes(v: &Vec<u8>) -> (r: Vec<u8>)
    ensures
        r@ == v@,
{
    let mut r: Vec<u8> = Vec::new();
    let mut i: usize = 0;
    while i < v.len()
        invariant
            i <= v@.len(),
            r@ == v@.subrange(0, i as int),
        decreases v@.len() - i,
    {
        r.push(v[i]);
        assert(v@.subrange(0, i + 1) =~= v@.subrange(0, i as int).push(v@[i as int]));
        i = i + 1;
    }
    assert(v@.subrange(0, v@.len() as int) =~= v@);
    r
}

fn copy_runs(v: &Vec<DataRun>) -> (r: Vec<DataRun>)
    ensures
        r@ == v@,
{
    let mut r: Vec<DataRun> = Vec::new();
    let mut i: usize = 0;
    while i < v.len()
        invariant
            i <= v@.len(),
            r@ == v@.subrange(0, i as int),
        decreases v@.len() - i,
    {
        r.push(v[i]);
        assert(v@.subrange(0, i + 1) =~= v@.subrange(0, i as int).push(v@[i as int]));
        i = i + 1;
    }
    assert(v@.subrange(0, v@.len() as int) =~= v@);
    r
}

impl Clone for NtfsAttribute {
    fn clone(&self) -> (r: Self)
        ensures
            r@ == self@,
    {
        NtfsAttribute {
            attr_type: self.attr_type,
            total_size: self.total_size,
            non_resident: self.non_resident,
            name: match &self.name {
                Some(s) => Some(s.clone()),
                None => None,
            },
            resident_data: match &self.resident_data {
                Some(v) => Some(copy_bytes(v)),
                None => None,
            },
            run_list: copy_runs(&self.run_list),
            data_size: self.data_size,
            initialized_size: self.initialized_size,
        }
    }
}

/// The views of a list of attributes.
pub open spec fn attr_views(s: Seq<NtfsAttribute>) -> Seq<AttrView> {
    Seq::new(s.len(), |i: int| s[i]@)
}

fn copy_attributes(v: &Vec<NtfsAttribute>) -> (r: Vec<NtfsAttribute>)
    ensures
        attr_views(r@) == attr_views(v@),
{
    let mut r: Vec<NtfsAttribute> = Vec::new();
    let mut i: usize = 0;
    while i < v.len()
        invariant
            i <= v@.len(),
            attr_views(r@) == attr_views(v@).subrange(0, i as int),
        decreases v@.len() - i,
    {
        let ghost old_r = r@;
        let a = v[i].clone();
        assert(a@ == v@[i as int]@);
        r.push(a);
        assert(attr_views(r@) =~= attr_views(v@).subrange(0, i + 1)) by {
            assert(r@ == old_r.push(a));
            assert(attr_views(old_r).len() == i);
            assert(old_r.len() == i);
            assert(r@.len() == i + 1);
            assert forall|j: int| 0 <= j < i + 1 implies #[trigger] attr_views(r@)[j] == attr_views(
                v@,
            ).subrange(0, i + 1)[j] by {
                if j < i {
                    assert(attr_views(old_r)[j] == attr_views(v@).subrange(0, i as int)[j]);
                }
            }
        }
        i = i + 1;
    }
    assert(attr_views(v@).subrange(0, v@.len() as int) =~= attr_views(v@));
    r
}

/// A parsed MFT record.
#[derive(Debug)]
pub struct MftRecord {
    pub record_number: u32,
    pub flags: u16,
    pub sequence_number: u16,
    pub attributes: Vec<NtfsAttribute>,
    pub bytes_in_use: u32,
}

/// An MFT record as plain values.
pub struct MftView {
    pub record_number: u32,
    pub flags: u16,
    pub sequence_number: u16,
    pub attributes: Seq<AttrView>,
    pub bytes_in_use: u32,
}

impl View for MftRecord {
    type V = MftView;

    open spec fn view(&self) -> MftView {
        MftView {
            record_number: self.record_number,
            flags: self.flags,
            sequence_number: self.sequence_number,
            attributes: attr_views(self.attributes@),
            bytes_in_use: self.bytes_in_use,
        }
    }
}

impl Clone for MftRecord {
    fn clone(&self) -> (r: Self)
        ensures
            r@ == self@,
    {
        MftRecord {
            record_number: self.record_number,
            flags: self.flags,
            sequence_number: self.sequence_number,
            attributes: copy_attributes(&self.attributes),
            bytes_in_use: self.bytes_in_use,
        }
    }
}

/// The characters of `n` little-endian UTF-16 units from `start`: a unit that
/// lies past the end of `d`, or that is half of a surrogate pair, is skipped.
pub open spec fn utf16_chars(d: Seq<u8>, start: int, n: nat) -> Seq<char>
    decreases n,
{
    if n == 0 {
        Seq::empty()
    } else {
        let prev = utf16_chars(d, start, (n - 1) as nat);
        let o = start + 2 * (n - 1);
        if o + 1 < d.len() && is_scalar(le16(d, o) as u32) {
            prev.push((le16(d, o) as u32) as char)
        } else {
            prev
        }
    }
}

/// Decodes `n` UTF-16 units from `start` (see `utf16_chars`).
fn decode_utf16(d: &[u8], start: usize, n: usize) -> (s: String)
    requires
        start + 2 * n <= usize::MAX,
    ensures
        s@ == utf16_chars(d@, start as int, n as nat),
{
    let len = d.len();
    let mut s = String::new();
    let mut i: usize = 0;
    while i < n
        invariant
            i <= n,
            start + 2 * n <= usize::MAX,
            len == d@.len(),
            s@ == utf16_chars(d@, start as int, i as nat),
        decreases n - i,
    {
        let o = start + i * 2;
        if o + 1 < len {
            let ch = read_u16(d, o);
            match char_from_u32(ch as u32) {
                Some(c) => push_char(&mut s, c),
                None => {},
            }
        }
        i = i + 1;
    }
    s
}

/// The attribute whose header starts at `off`.
pub open spec fn attr_at(d: Seq<u8>, off: int) -> AttrView {
    let ts = le32(d, off + 4);
    let nl = d[off + 9] as int;
    let no = le16(d, off + 10);
    let name = if nl > 0 && no + 2 * nl <= ts {
        Some(utf16_chars(d, off + no, nl as nat))
    } else {
        None
    };
    let attr_type = attr_type_of(le32(d, off) as u32);
    if d[off + 8] != 0 {
        if off + 0x40 <= d.len() {
            let ro = le16(d, off + 0x20);
            AttrView {
                attr_type,
                total_size: ts as u32,
                non_resident: true,
                name,
                resident_data: None,
                run_list: runs_from(d.subrange(off + ro, off + ts), 0),
                data_size: le64(d, off + 0x30) as u64,
                initialized_size: le64(d, off + 0x38) as u64,
            }
        } else {
            AttrView {
                attr_type,
                total_size: ts as u32,
                non_resident: true,
                name,
                resident_data: None,
                run_list: Seq::empty(),
                data_size: 0,
                initialized_size: 0,
            }
        }
    } else {
        let cs = le32(d, off + 0x10);
        let co = le16(d, off + 0x14);
        AttrView {
            attr_type,
            total_size: ts as u32,
            non_resident: false,
            name,
            resident_data: if off + co + cs <= d.len() {
                Some(d.subrange(off + co, off + co + cs))
            } else {
                None
            },
            run_list: Seq::empty(),
            data_size: cs as u64,
            initialized_size: cs as u64,
        }
    }
}

/// The attribute at `off` is non-resident and its run list lies outside the
/// attribute or holds a run too wide for 64 bits.
pub open spec fn attr_overflows(d: Seq<u8>, off: int) -> bool {
    let ts = le32(d, off + 4);
    let ro = le16(d, off + 0x20);
    d[off + 8] != 0 && off + 0x40 <= d.len() && (ro > ts || runs_overflow(
        d.subrange(off + ro, off + ts),
        0,
    ))
}

/// An attribute header is read at `off`: four bytes of type fit before the
/// end, the type is not the end marker, and the 24-byte header fits.
pub open spec fn attr_header_at(d: Seq<u8>, off: int) -> bool {
    0 <= off && off + 4 < d.len() && le32(d, off) != 0xFFFF_FFFF && off + 24 <= d.len()
}

/// The attributes of a record, from the header at `off` to the end marker or
/// to the first attribute whose size is zero or runs past the end.
pub open spec fn attrs_from(d: Seq<u8>, off: int) -> Seq<AttrView>
    decreases d.len() - off,
{
    if !attr_header_at(d, off) {
        Seq::empty()
    } else {
        let ts = le32(d, off + 4);
        if ts == 0 || off + ts > d.len() {
            Seq::empty()
        } else {
            seq![attr_at(d, off)] + attrs_from(d, off + ts)
        }
    }
}

/// Some attribute that `attrs_from` reads overflows (see `attr_overflows`).
pub open spec fn attrs_overflow(d: Seq<u8>, off: int) -> bool
    decreases d.len() - off,
{
    if !attr_header_at(d, off) {
        false
    } else {
        let ts = le32(d, off + 4);
        if ts == 0 || off + ts > d.len() {
            false
        } else {
            attr_overflows(d, off) || attrs_overflow(d, off + ts)
        }
    }
}

/// Long enough for a record and starting with the "FILE" signature.
pub open spec fn mft_signed(d: Seq<u8>) -> bool {
    d.len() >= MFT_RECORD_SIZE && le32(d, 0) == MFT_RECORD_SIGNATURE
}

/// The record that a signed buffer holds (numbered 0 until the caller knows).
pub open spec fn record_of(d: Seq<u8>) -> MftView {
    MftView {
        record_number: 0,
        flags: le16(d, 0x16) as u16,
        sequence_number: le16(d, 0x10) as u16,
        attributes: attrs_from(d, le16(d, 0x14)),
        bytes_in_use: le32(d, 0x18) as u32,
    }
}

/// The buffers on which record parsing would overflow.
pub open spec fn record_overflows(d: Seq<u8>) -> bool {
    mft_signed(d) && attrs_overflow(d, le16(d, 0x14))
}


/// What a journal entry records.
#[derive(Debug, Clone, Copy, PartialEq, Eq, Structural)]
pub enum JournalOperation {
    FileCreate,
    FileDelete,
    FileWrite,
    FileRename,
    AttributeChange,
    DirectoryCreate,
    Checkpoint,
}

/// One logged operation.
#[derive(Debug)]
pub struct JournalEntry {
    pub lsn: u64,
    pub operation: JournalOperation,
    pub file_name: String,
    pub data: Vec<u8>,
    pub timestamp: u64,
}

/// A journal entry as plain values.
pub struct EntryView {
    pub lsn: u64,
    pub operation: JournalOperation,
    pub file_name: Seq<char>,
    pub data: Seq<u8>,
    pub timestamp: u64,
}

impl View for JournalEntry {
    type V = EntryView;

    open spec fn view(&self) -> EntryView {
        EntryView {
            lsn: self.lsn,
            operation: self.operation,
            file_name: self.file_name@,
            data: self.data@,
            timestamp: self.timestamp,
        }
    }
}

/// The entries kept after logging `op` on `name` with `data` as number
/// `lsn` onto `es`: the oldest entry is dropped when `JOURNAL_CAPACITY` are
/// kept, and the new entry goes last.
pub open spec fn logged(es: Seq<EntryView>, lsn: u64, op: JournalOperation, name: Seq<char>, data: Seq<u8>) -> Seq<EntryView> {
    (if es.len() >= JOURNAL_CAPACITY {
        es.drop_first()
    } else {
        es
    }).push(EntryView { lsn, operation: op, file_name: name, data, timestamp: 0 })
}

/// At most `JOURNAL_CAPACITY` entries, numbered consecutively up to just
/// below `next`.
pub open spec fn journal_shape(es: Seq<EntryView>, next: u64) -> bool {
    &&& es.len() <= JOURNAL_CAPACITY
    &&& es.len() <= next
    &&& forall|i: int| 0 <= i < es.len() ==> #[trigger] es[i].lsn == next - es.len() + i
}

/// A bounded log of file-system operations, numbered by log sequence number.
#[derive(Debug)]
pub struct NtfsJournal {
    entries: Vec<JournalEntry>,
    max_entries: usize,
    current_lsn: u64,
}

impl NtfsJournal {
    /// The entries kept, oldest first.
    pub closed spec fn entries_view(&self) -> Seq<EntryView> {
        Seq::new(self.entries@.len(), |i: int| self.entries@[i]@)
    }

    /// The number the next entry gets.
    pub closed spec fn next_lsn(&self) -> u64 {
        self.current_lsn
    }

    /// At most `JOURNAL_CAPACITY` entries are kept, and they are the latest
    /// ones, numbered consecutively up to the last one logged.
    pub closed spec fn wf(&self) -> bool {
        &&& self.max_entries == JOURNAL_CAPACITY
        &&& self.entries@.len() <= self.max_entries
        &&& self.entries@.len() <= self.current_lsn
        &&& forall|i: int|
            0 <= i < self.entries@.len() ==> #[trigger] self.entries@[i].lsn == self.current_lsn
                - self.entries@.len() + i
    }

    pub fn new() -> (j: Self)
        ensures
            j.wf(),
            j.entries_view().len() == 0,
            j.next_lsn() == 0,
            journal_shape(j.entries_view(), j.next_lsn()),
    {
        NtfsJournal { entries: Vec::new(), max_entries: JOURNAL_CAPACITY, current_lsn: 0 }
    }

    /// Appends an entry numbered `next_lsn()`; when the journal is full the
    /// oldest entry is dropped first.
    pub fn log(&mut self, operation: JournalOperation, file_name: &str, data: &[u8])
        requires
            old(self).wf(),
            old(self).next_lsn() < u64::MAX,
        ensures
            final(self).wf(),
            final(self).next_lsn() == old(self).next_lsn() + 1,
            final(self).entries_view() == logged(old(self).entries_view(), old(self).next_lsn(), operation, file_name@, data@),
            journal_shape(final(self).entries_view(), final(self).next_lsn()),
    {
        let entry = JournalEntry {
            lsn: self.current_lsn,
            operation,
            file_name: file_name.to_owned(),
            data: vstd::slice::slice_to_vec(data),
            timestamp: 0,
        };
        let ghost e = entry@;
        let ghost before = self.entries@;
        self.current_lsn = self.current_lsn + 1;
        if self.entries.len() >= self.max_entries {
            self.entries.remove(0);
        }
        let ghost kept = self.entries@;
        self.entries.push(entry);
        proof {
            assert(self.entries@ == kept.push(entry));
            let old_view = Seq::new(before.len(), |i: int| before[i]@);
            let kept_view = if before.len() >= JOURNAL_CAPACITY {
                old_view.drop_first()
            } else {
                old_view
            };
            assert(Seq::new(kept.len(), |i: int| kept[i]@) =~= kept_view);
            assert(self.entries_view() =~= kept_view.push(e));
            lemma_wf_shape(self);
        }
    }

    /// The entries kept, oldest first.
    pub fn get_entries(&self) -> (r: &[JournalEntry])
        ensures
            Seq::new(r@.len(), |i: int| r@[i]@) == self.entries_view(),
    {
        self.entries.as_slice()
    }

    /// Logs a checkpoint: no file name, no data.
    pub fn checkpoint(&mut self)
        requires
            old(self).wf(),
            old(self).next_lsn() < u64::MAX,
        ensures
            final(self).wf(),
            final(self).next_lsn() == old(self).next_lsn() + 1,
            final(self).entries_view() == logged(
                old(self).entries_view(),
                old(self).next_lsn(),
                JournalOperation::Checkpoint,
                Seq::empty(),
                Seq::empty(),
            ),
            journal_shape(final(self).entries_view(), final(self).next_lsn()),
    {
        let empty: Vec<u8> = Vec::new();
        let name = "";
        proof {
            reveal_strlit("");
        }
        assert(name@ =~= Seq::<char>::empty());
        self.log(JournalOperation::Checkpoint, name, empty.as_slice());
    }
}

/// A well-formed journal has the shape `journal_shape` describes.
proof fn lemma_wf_shape(j: &NtfsJournal)
    requires
        j.wf(),
    ensures
        journal_shape(j.entries_view(), j.next_lsn()),
{
    assert forall|i: int| 0 <= i < j.entries_view().len() implies #[trigger] j.entries_view()[i].lsn
        == j.next_lsn() - j.entries_view().len() + i by {
        assert(j.entries_view()[i] == j.entries@[i]@);
    }
}


/// The root directory's record, used while the MFT holds none.
pub open spec fn root_record() -> MftView {
    MftView {
        record_number: MFT_NUMBER_ROOT as u32,
        flags: 3,
        sequence_number: 1,
        attributes: Seq::empty(),
        bytes_in_use: MFT_RECORD_SIZE as u32,
    }
}

/// The byte at which record `n` starts on the volume.
pub open spec fn record_byte_offset(bpb: NtfsBpb, n: u64) -> int {
    bpb.mft_start_cluster * bpb.cluster_size + n * bpb.record_size_spec()
}

/// An NTFS volume: its parameter block, the MFT records read so far, and its
/// journal.
pub struct NtfsVolume {
    bpb: NtfsBpb,
    mft_cache: std::collections::BTreeMap<u64, MftRecord>,
    journal: NtfsJournal,
    disk_id: u32,
}

impl NtfsVolume {
    pub closed spec fn bpb_view(&self) -> NtfsBpb {
        self.bpb
    }

    /// The records read so far, by number.
    pub closed spec fn cache_view(&self) -> Map<u64, MftView> {
        self.mft_cache@.map_values(|r: MftRecord| r@)
    }

    pub closed spec fn journal_view(&self) -> NtfsJournal {
        self.journal
    }

    pub closed spec fn disk_id_view(&self) -> u32 {
        self.disk_id
    }

    /// A volume on the disk `disk_id` whose boot sector is `boot_sector`.
    pub fn new(boot_sector: &[u8], disk_id: u32) -> (r: KernelResult<Self>)
        requires
            bpb_parsable(boot_sector@),
        ensures
            match r {
                Ok(v) => {
                    &&& boot_sector@.len() >= 512
                    &&& has_ntfs_signature(boot_sector@)
                    &&& v.bpb_view() == bpb_of(boot_sector@)
                    &&& v.cache_view() == Map::<u64, MftView>::empty()
                    &&& v.journal_view().wf()
                    &&& v.journal_view().entries_view().len() == 0
                    &&& v.journal_view().next_lsn() == 0
                    &&& v.disk_id_view() == disk_id
                },
                Err(e) => if boot_sector@.len() < 512 {
                    e == KernelError::IoError
                } else {
                    !has_ntfs_signature(boot_sector@) && e == KernelError::FileSystemNotFound
                },
            },
    {
        let bpb = match NtfsBpb::parse(boot_sector) {
            Ok(b) => b,
            Err(e) => return Err(e),
        };
        let v = NtfsVolume {
            bpb,
            mft_cache: std::collections::BTreeMap::new(),
            journal: NtfsJournal::new(),
            disk_id,
        };
        assert(v.cache_view() =~= Map::<u64, MftView>::empty());
        Ok(v)
    }

    /// Decodes a run list (see `runs_from`).
    pub fn parse_run_list(&self, data: &[u8]) -> (runs: Vec<DataRun>)
        requires
            !runs_overflow(data@, 0),
        ensures
            runs@ == runs_from(data@, 0),
    {
        let len = data.len();
        let mut runs: Vec<DataRun> = Vec::new();
        let mut offset: usize = 0;
        assert(runs@ + runs_from(data@, 0) =~= runs_from(data@, 0));
        while offset < len
            invariant_except_break
                runs@ + runs_from(data@, offset as int) == runs_from(data@, 0),
                !runs_overflow(data@, offset as int),
            invariant
                offset <= len,
                len == data@.len(),
            ensures
                runs@ == runs_from(data@, 0),
            decreases len - offset,
        {
            let ghost at = offset as int;
            let ghost before = runs@;
            let header = data[offset];
            if header == 0 {
                assert(runs@ =~= runs@ + runs_from(data@, at));
                break;
            }
            offset = offset + 1;
            let size_len = (header % 16) as usize;
            let offset_len = (header / 16) as usize;
            if size_len == 0 || size_len > len - offset {
                assert(runs@ =~= runs@ + runs_from(data@, at));
                break;
            }
            let length = read_le(data, offset, size_len);
            offset = offset + size_len;
            if offset_len == 0 {
                runs.push(DataRun { length, offset: 0 });
                assert(runs@ + runs_from(data@, offset as int) =~= before + runs_from(data@, at));
                continue;
            }
            if offset_len > len - offset {
                assert(runs@ =~= runs@ + runs_from(data@, at));
                break;
            }
            let run_offset = read_le_signed(data, offset, offset_len);
            offset = offset + offset_len;
            runs.push(DataRun { length, offset: run_offset });
            assert(runs@ + runs_from(data@, offset as int) =~= before + runs_from(data@, at));
        }
        proof {
            if offset >= len {
                assert(runs@ =~= runs@ + runs_from(data@, offset as int));
            }
        }
        runs
    }

    /// Parses the attribute whose header starts at `offset`.
    fn parse_attribute(&self, data: &[u8], offset: usize, total_size: usize) -> (a: NtfsAttribute)
        requires
            attr_header_at(data@, offset as int),
            total_size == le32(data@, offset + 4),
            total_size > 0,
            offset + total_size <= data@.len(),
            !attr_overflows(data@, offset as int),
        ensures
            a@ == attr_at(data@, offset as int),
    {
        let len = data.len();
        let attr_type = read_u32(data, offset);
        let non_resident = data[offset + 8] != 0;
        let name_length = data[offset + 9] as usize;
        let name_offset = read_u16(data, offset + 10) as usize;
        let name = if name_length > 0 && name_offset + name_length * 2 <= total_size {
            Some(decode_utf16(data, offset + name_offset, name_length))
        } else {
            None
        };
        let mut attr = NtfsAttribute {
            attr_type: NtfsAttributeType::from(attr_type),
            total_size: total_size as u32,
            non_resident,
            name,
            resident_data: None,
            run_list: Vec::new(),
            data_size: 0,
            initialized_size: 0,
        };
        if non_resident {
            if len - offset >= 0x40 {
                attr.data_size = read_u64(data, offset + 0x30);
                attr.initialized_size = read_u64(data, offset + 0x38);
                let run_offset = read_u16(data, offset + 0x20) as usize;
                let runs = &data[offset + run_offset..offset + total_size];
                attr.run_list = self.parse_run_list(runs);
            }
        } else {
            let content_size = read_u32(data, offset + 0x10) as usize;
            let content_offset = read_u16(data, offset + 0x14) as usize;
            attr.data_size = content_size as u64;
            attr.initialized_size = content_size as u64;
            if content_offset <= len - offset && content_size <= len - offset - content_offset {
                let start = offset + content_offset;
                let content = &data[start..start + content_size];
                attr.resident_data = Some(vstd::slice::slice_to_vec(content));
            }
        }
        assert(attr.run_list@ =~= attr_at(data@, offset as int).run_list);
        attr
    }

    /// Parses one MFT record: it must be at least `MFT_RECORD_SIZE` bytes and
    /// start with the record signature, else the result is an I/O error.
    pub fn parse_mft_record(&self, data: &[u8]) -> (r: KernelResult<MftRecord>)
        requires
            !record_overflows(data@),
        ensures
            match r {
                Ok(rec) => mft_signed(data@) && rec@ == record_of(data@),
                Err(e) => !mft_signed(data@) && e == KernelError::IoError,
            },
    {
        if data.len() < MFT_RECORD_SIZE {
            return Err(KernelError::IoError);
        }
        let signature = read_u32(data, 0);
        if signature != MFT_RECORD_SIGNATURE {
            return Err(KernelError::IoError);
        }
        let sequence_number = read_u16(data, 0x10);
        let attrs_offset = read_u16(data, 0x14) as usize;
        let flags = read_u16(data, 0x16);
        let bytes_in_use = read_u32(data, 0x18);
        let len = data.len();
        let mut attributes: Vec<NtfsAttribute> = Vec::new();
        let mut offset = attrs_offset;
        assert(attr_views(attributes@) + attrs_from(data@, offset as int) =~= attrs_from(
            data@,
            attrs_offset as int,
        ));
        while offset < len && len - offset > 4
            invariant
                len == data@.len(),
                attr_views(attributes@) + attrs_from(data@, offset as int) == attrs_from(
                    data@,
                    attrs_offset as int,
                ),
                !attrs_overflow(data@, offset as int),
            ensures
                attr_views(attributes@) == attrs_from(data@, attrs_offset as int),
            decreases len - offset,
        {
            let ghost at = offset as int;
            let ghost before = attributes@;
            let attr_type = read_u32(data, offset);
            if attr_type == 0xFFFF_FFFF {
                assert(attr_views(attributes@) =~= attr_views(attributes@) + attrs_from(data@, at));
                break;
            }
            if len - offset < 24 {
                assert(attr_views(attributes@) =~= attr_views(attributes@) + attrs_from(data@, at));
                break;
            }
            let total_size = read_u32(data, offset + 4) as usize;
            if total_size == 0 || total_size > len - offset {
                assert(attr_views(attributes@) =~= attr_views(attributes@) + attrs_from(data@, at));
                break;
            }
            let attr = self.parse_attribute(data, offset, total_size);
            attributes.push(attr);
            offset = offset + total_size;
            assert(attr_views(attributes@) =~= attr_views(before).push(attr@));
            assert(attr_views(attributes@) + attrs_from(data@, offset as int) =~= attr_views(before)
                + attrs_from(data@, at));
        }
        proof {
            if !(offset < len && len - offset > 4) {
                assert(attr_views(attributes@) =~= attr_views(attributes@) + attrs_from(
                    data@,
                    offset as int,
                ));
            }
        }
        Ok(MftRecord { record_number: 0, flags, sequence_number, attributes, bytes_in_use })
    }
}


/// The first unnamed data attribute.
pub open spec fn first_data(attrs: Seq<AttrView>) -> Option<AttrView>
    decreases attrs.len(),
{
    if attrs.len() == 0 {
        None
    } else if attrs[0].attr_type == NtfsAttributeType::Data && attrs[0].name is None {
        Some(attrs[0])
    } else {
        first_data(attrs.drop_first())
    }
}

/// The size of the last data attribute, or 0.
pub open spec fn last_data_size(attrs: Seq<AttrView>) -> u64
    decreases attrs.len(),
{
    if attrs.len() == 0 {
        0
    } else if attrs.last().attr_type == NtfsAttributeType::Data {
        attrs.last().data_size
    } else {
        last_data_size(attrs.drop_last())
    }
}

/// An NTFS time stamp (100 ns units since 1601) at `off`, as Unix seconds;
/// 0 where the buffer is too short or the time is before 1970.
pub open spec fn ntfs_time(d: Seq<u8>, off: int) -> u64 {
    if d.len() < off + 8 {
        0
    } else {
        let secs = le64(d, off) / 10_000_000;
        if secs > 11644473600 {
            (secs - 11644473600) as u64
        } else {
            0
        }
    }
}

/// Creation and modification times from the last resident standard
/// information attribute, or zeros.
pub open spec fn last_times(attrs: Seq<AttrView>) -> (u64, u64)
    decreases attrs.len(),
{
    if attrs.len() == 0 {
        (0, 0)
    } else if attrs.last().attr_type == NtfsAttributeType::StandardInformation
        && attrs.last().resident_data is Some {
        let d = attrs.last().resident_data->0;
        (ntfs_time(d, 0), ntfs_time(d, 8))
    } else {
        last_times(attrs.drop_last())
    }
}

/// The metadata an inode reports for an MFT record.
pub open spec fn inode_metadata(rec: MftView) -> FileMetadata {
    let times = last_times(rec.attributes);
    FileMetadata {
        inode: rec.record_number as u64,
        file_type: if rec.flags & 2 != 0 {
            FileType::Directory
        } else {
            FileType::Regular
        },
        size: last_data_size(rec.attributes),
        permissions: FilePermissions {
            owner_read: true,
            owner_write: true,
            owner_execute: false,
            group_read: true,
            group_write: false,
            group_execute: false,
            others_read: true,
            others_write: false,
            others_execute: false,
        },
        created: times.0,
        modified: times.1,
        accessed: times.1,
        nlinks: 1,
        uid: 0,
        gid: 0,
    }
}

/// Bytes a read of a buffer of `blen` bytes at file position `pos` takes from
/// the runs from `i` on, with the running cluster `cur` and `read` bytes
/// already read; `None` where the 64-bit cluster or byte arithmetic would
/// overflow.
pub open spec fn scan_runs(
    runs: Seq<DataRun>,
    cs: int,
    blen: int,
    i: int,
    cur: int,
    read: int,
    pos: int,
) -> Option<int>
    decreases runs.len() - i,
{
    if i < 0 || i >= runs.len() {
        Some(read)
    } else {
        let r = runs[i];
        let cur2 = cur + r.offset;
        let ucur = if cur2 >= 0 {
            cur2
        } else {
            cur2 + 0x1_0000_0000_0000_0000
        };
        let start = ucur * cs;
        let span = r.length * cs;
        if cur2 < i64::MIN || cur2 > i64::MAX || start > u64::MAX || span > u64::MAX || start + span
            > u64::MAX {
            None
        } else if pos >= start + span {
            scan_runs(runs, cs, blen, i + 1, cur2, read, pos)
        } else {
            let rs = if pos > start {
                pos - start
            } else {
                0
            };
            let rl = if span - rs < blen - read {
                span - rs
            } else {
                blen - read
            };
            if read + rl >= blen {
                Some(read + rl)
            } else {
                scan_runs(runs, cs, blen, i + 1, cur2, read + rl, pos + rl)
            }
        }
    }
}

/// A read through runs never reports more bytes than the buffer holds.
proof fn lemma_scan_runs_bound(
    runs: Seq<DataRun>,
    cs: int,
    blen: int,
    i: int,
    cur: int,
    read: int,
    pos: int,
)
    requires
        0 <= read <= blen,
        0 <= cs,
    ensures
        scan_runs(runs, cs, blen, i, cur, read, pos) matches Some(n) ==> read <= n <= blen,
    decreases runs.len() - i,
{
    if 0 <= i < runs.len() {
        let r = runs[i];
        let cur2 = cur + r.offset;
        let ucur = if cur2 >= 0 {
            cur2
        } else {
            cur2 + 0x1_0000_0000_0000_0000
        };
        let start = ucur * cs;
        let span = r.length * cs;
        let rs = if pos > start {
            pos - start
        } else {
            0
        };
        let rl = if span - rs < blen - read {
            span - rs
        } else {
            blen - read
        };
        assert(0 <= span) by (nonlinear_arith)
            requires
                span == r.length * cs,
                0 <= r.length,
                0 <= cs,
        ;
        lemma_scan_runs_bound(runs, cs, blen, i + 1, cur2, read, pos);
        if pos < start + span && pos > start {
            assert(span - rs > 0);
        }
        if 0 <= rl {
            lemma_scan_runs_bound(runs, cs, blen, i + 1, cur2, read + rl, pos + rl);
        }
    }
}

/// A file or directory of an NTFS volume.
pub struct NtfsInode {
    record_number: u64,
    metadata: FileMetadata,
    attributes: Vec<NtfsAttribute>,
    cluster_size: u64,
}

impl NtfsInode {
    pub closed spec fn record_number_view(&self) -> u64 {
        self.record_number
    }

    pub closed spec fn metadata_view(&self) -> FileMetadata {
        self.metadata
    }

    pub closed spec fn attrs_view(&self) -> Seq<AttrView> {
        attr_views(self.attributes@)
    }

    /// Bytes per cluster of the volume the inode belongs to.
    pub closed spec fn cluster_size_view(&self) -> u64 {
        self.cluster_size
    }

    /// The inode of an MFT record on a volume with `cluster_size`-byte clusters.
    pub fn from_mft_record(record: &MftRecord, cluster_size: u64) -> (n: Self)
        ensures
            n.record_number_view() == record.record_number as u64,
            n.metadata_view() == inode_metadata(record@),
            n.attrs_view() == record@.attributes,
            n.cluster_size_view() == cluster_size,
    {
        let is_dir = (record.flags & MftRecordFlags::IS_DIRECTORY) != 0;
        let mut size: u64 = 0;
        let mut created: u64 = 0;
        let mut modified: u64 = 0;
        let mut i: usize = 0;
        while i < record.attributes.len()
            invariant
                i <= record.attributes@.len(),
                size == last_data_size(record@.attributes.subrange(0, i as int)),
                (created, modified) == last_times(record@.attributes.subrange(0, i as int)),
            decreases record.attributes@.len() - i,
        {
            let attr = &record.attributes[i];
            proof {
                let pre = record@.attributes.subrange(0, i + 1);
                assert(pre.drop_last() =~= record@.attributes.subrange(0, i as int));
                assert(pre.last() == attr@);
            }
            match attr.attr_type {
                NtfsAttributeType::StandardInformation => {
                    match &attr.resident_data {
                        Some(data) => {
                            created = Self::parse_timestamp(data.as_slice(), 0);
                            modified = Self::parse_timestamp(data.as_slice(), 8);
                        },
                        None => {},
                    }
                },
                NtfsAttributeType::Data => {
                    size = attr.data_size;
                },
                _ => {},
            }
            i = i + 1;
        }
        assert(record@.attributes.subrange(0, i as int) =~= record@.attributes);
        let metadata = FileMetadata {
            inode: record.record_number as u64,
            file_type: if is_dir {
                FileType::Directory
            } else {
                FileType::Regular
            },
            size,
            permissions: FilePermissions::default(),
            created,
            modified,
            accessed: modified,
            nlinks: 1,
            uid: 0,
            gid: 0,
        };
        NtfsInode {
            record_number: record.record_number as u64,
            metadata,
            attributes: copy_attributes(&record.attributes),
            cluster_size,
        }
    }

    /// The name in a file-name attribute's content: the length byte at 64,
    /// then that many UTF-16 units from byte 66; "unknown" where the content
    /// is too short for either.
    pub fn parse_file_name(data: &[u8]) -> (s: String)
        ensures
            data@.len() >= 66 && data@.len() >= 66 + 2 * data@[64] ==> s@ == utf16_chars(
                data@,
                66,
                data@[64] as nat,
            ),
            !(data@.len() >= 66 && data@.len() >= 66 + 2 * data@[64]) ==> s@ == "unknown"@,
    {
        if data.len() < 66 {
            return "unknown".to_owned();
        }
        let name_len = data[64] as usize;
        if data.len() - 66 < name_len * 2 {
            return "unknown".to_owned();
        }
        decode_utf16(data, 66, name_len)
    }

    /// The time stamp at `offset` (see `ntfs_time`).
    pub fn parse_timestamp(data: &[u8], offset: usize) -> (t: u64)
        ensures
            t == ntfs_time(data@, offset as int),
    {
        if data.len() < 8 || offset > data.len() - 8 {
            return 0;
        }
        let raw = read_u64(data, offset);
        let seconds = raw / 10_000_000;
        if seconds > 11644473600 {
            seconds - 11644473600
        } else {
            0
        }
    }

    fn get_data_attribute(&self) -> (r: Option<&NtfsAttribute>)
        ensures
            match r {
                Some(a) => first_data(self.attrs_view()) == Some(a@),
                None => first_data(self.attrs_view()) is None,
            },
    {
        let mut i: usize = 0;
        assert(self.attrs_view().subrange(0, self.attrs_view().len() as int) =~= self.attrs_view());
        while i < self.attributes.len()
            invariant
                i <= self.attributes@.len(),
                first_data(self.attrs_view()) == first_data(self.attrs_view().subrange(
                    i as int,
                    self.attrs_view().len() as int,
                )),
            decreases self.attributes@.len() - i,
        {
            let a = &self.attributes[i];
            let ghost rest = self.attrs_view().subrange(i as int, self.attrs_view().len() as int);
            assert(rest[0] == a@);
            if a.attr_type == NtfsAttributeType::Data && a.name.is_none() {
                return Some(a);
            }
            assert(rest.drop_first() =~= self.attrs_view().subrange(
                i + 1,
                self.attrs_view().len() as int,
            ));
            i = i + 1;
        }
        None
    }

    /// Bytes a read of `blen` bytes at `offset` takes from the runs (see
    /// `scan_runs`): the volume has no device behind it, so what is read is
    /// zeros. Where the 64-bit cluster or byte arithmetic would overflow the
    /// read fails with an I/O error.
    pub fn read_from_runs(&self, runs: &[DataRun], offset: FileOffset, buffer: &mut [u8]) -> (r:
        KernelResult<usize>)
        ensures
            match scan_runs(
                runs@,
                self.cluster_size_view() as int,
                old(buffer)@.len() as int,
                0,
                0,
                0,
                offset as u64 as int,
            ) {
                Some(n) => r == Ok::<usize, KernelError>(n as usize) && final(buffer)@ == Seq::new(
                    n as nat,
                    |k: int| 0u8,
                ) + old(buffer)@.subrange(n, old(buffer)@.len() as int),
                None => r == Err::<usize, KernelError>(KernelError::IoError) && final(buffer)@
                    == old(buffer)@,
            },
    {
        let cluster_size = self.cluster_size;
        let blen = buffer.len();
        let mut current_cluster: i64 = 0;
        let mut bytes_read: usize = 0;
        let mut file_offset: u64 = offset as u64;
        let mut i: usize = 0;
        while i < runs.len()
            invariant_except_break
                scan_runs(runs@, cluster_size as int, blen as int, 0, 0, 0, offset as u64 as int)
                    == scan_runs(
                    runs@,
                    cluster_size as int,
                    blen as int,
                    i as int,
                    current_cluster as int,
                    bytes_read as int,
                    file_offset as int,
                ),
            invariant
                i <= runs@.len(),
                bytes_read <= blen,
                blen == old(buffer)@.len(),
                buffer@ == old(buffer)@,
                cluster_size == self.cluster_size_view(),
            ensures
                scan_runs(runs@, cluster_size as int, blen as int, 0, 0, 0, offset as u64 as int)
                    == Some(bytes_read as int),
            decreases runs@.len() - i,
        {
            let run = runs[i];
            let cur = match current_cluster.checked_add(run.offset) {
                Some(c) => c,
                None => return Err(KernelError::IoError),
            };
            let ucur: u64 = if cur >= 0 {
                cur as u64
            } else {
                u64::MAX - ((-(cur + 1)) as u64)
            };
            let run_start_byte = match ucur.checked_mul(cluster_size) {
                Some(b) => b,
                None => return Err(KernelError::IoError),
            };
            let span = match run.length.checked_mul(cluster_size) {
                Some(b) => b,
                None => return Err(KernelError::IoError),
            };
            let run_end_byte = match run_start_byte.checked_add(span) {
                Some(b) => b,
                None => return Err(KernelError::IoError),
            };
            current_cluster = cur;
            i = i + 1;
            if file_offset >= run_end_byte {
                continue;
            }
            let read_start = if file_offset > run_start_byte {
                file_offset - run_start_byte
            } else {
                0
            };
            let room = (blen - bytes_read) as u64;
            let read_len = if span - read_start < room {
                span - read_start
            } else {
                room
            };
            bytes_read = bytes_read + read_len as usize;
            file_offset = file_offset + read_len;
            if bytes_read >= blen {
                break;
            }
        }
        let mut k: usize = 0;
        while k < bytes_read
            invariant
                k <= bytes_read <= blen,
                blen == old(buffer)@.len(),
                buffer@.len() == blen,
                forall|j: int| 0 <= j < k ==> buffer@[j] == 0,
                forall|j: int| k <= j < blen ==> buffer@[j] == old(buffer)@[j],
            decreases bytes_read - k,
        {
            buffer[k] = 0;
            k = k + 1;
        }
        assert(buffer@ =~= Seq::new(bytes_read as nat, |k: int| 0u8) + old(buffer)@.subrange(
            bytes_read as int,
            blen as int,
        ));
        Ok(bytes_read)
    }
}


impl Inode for NtfsInode {
    open spec fn metadata_gives(&self, r: KernelResult<FileMetadata>) -> bool {
        r == Ok::<FileMetadata, KernelError>(self.metadata_view())
    }

    open spec fn lookup_gives(&self, name: Seq<char>, r: KernelResult<Self>) -> bool {
        r == Err::<NtfsInode, KernelError>(KernelError::FileNotFound)
    }

    fn metadata(&self) -> (r: KernelResult<FileMetadata>)
        ensures
            r == Ok::<FileMetadata, KernelError>(self.metadata_view()),
    {
        Ok(self.metadata)
    }

    /// What a read from `offset` does to a buffer holding `before`: from
    /// the first unnamed data attribute, resident content is copied from
    /// `offset`, a run list reads as zeros (see `read_from_runs`); without
    /// such an attribute the file is not found.
    open spec fn read_gives(&self, offset: FileOffset, before: Seq<u8>, after: Seq<u8>, r: KernelResult<usize>) -> bool {
        match first_data(self.attrs_view()) {
            None => r == Err::<usize, KernelError>(KernelError::FileNotFound) && after
                == before,
            Some(a) => match a.resident_data {
                Some(d) => {
                    let start = offset as usize as int;
                    let blen = before.len() as int;
                    if start >= d.len() {
                        r == Ok::<usize, KernelError>(0) && after == before
                    } else {
                        let n = if blen < d.len() - start {
                            blen
                        } else {
                            d.len() - start
                        };
                        r == Ok::<usize, KernelError>(n as usize) && after == d.subrange(
                            start,
                            start + n,
                        ) + before.subrange(n, blen)
                    }
                },
                None => match scan_runs(
                    a.run_list,
                    self.cluster_size_view() as int,
                    before.len() as int,
                    0,
                    0,
                    0,
                    offset as u64 as int,
                ) {
                    Some(n) => r == Ok::<usize, KernelError>(n as usize) && after
                        == Seq::new(n as nat, |k: int| 0u8) + before.subrange(
                        n,
                        before.len() as int,
                    ),
                    None => r == Err::<usize, KernelError>(KernelError::IoError)
                        && after == before,
                },
            },
        }
    }

    /// An NTFS inode is not written: every write fails with an I/O error.
    open spec fn write_gives(&self, after: Self, offset: FileOffset, data: Seq<u8>, r: KernelResult<usize>) -> bool {
        r == Err::<usize, KernelError>(KernelError::IoError) && after == *self
    }

    /// Reads from the first unnamed data attribute (see `read_gives`).
    fn read(&self, offset: FileOffset, buffer: &mut [u8]) -> (r: KernelResult<usize>)
    {
        match self.get_data_attribute() {
            Some(attr) => {
                match &attr.resident_data {
                    Some(data) => {
                        let start = offset as usize;
                        if start >= data.len() {
                            return Ok(0);
                        }
                        let len = if buffer.len() < data.len() - start {
                            buffer.len()
                        } else {
                            data.len() - start
                        };
                        let dlen = data.len();
                        let mut k: usize = 0;
                        while k < len
                            invariant
                                k <= len,
                                start + len <= dlen,
                                dlen == data@.len(),
                                len <= old(buffer)@.len(),
                                buffer@.len() == old(buffer)@.len(),
                                forall|j: int| 0 <= j < k ==> buffer@[j] == data@[start + j],
                                forall|j: int|
                                    k <= j < old(buffer)@.len() ==> buffer@[j] == old(buffer)@[j],
                            decreases len - k,
                        {
                            buffer[k] = data[start + k];
                            k = k + 1;
                        }
                        assert(buffer@ =~= data@.subrange(start as int, start + len) + old(
                            buffer,
                        )@.subrange(len as int, old(buffer)@.len() as int));
                        Ok(len)
                    },
                    None => {
                        proof {
                            lemma_scan_runs_bound(
                                attr.run_list@,
                                self.cluster_size as int,
                                buffer@.len() as int,
                                0,
                                0,
                                0,
                                offset as u64 as int,
                            );
                        }
                        self.read_from_runs(attr.run_list.as_slice(), offset, buffer)
                    },
                }
            },
            None => Err(KernelError::FileNotFound),
        }
    }

    /// NTFS volumes are mounted read-only: writing fails.
    fn write(&mut self, offset: FileOffset, data: &[u8]) -> (r: KernelResult<usize>)
        ensures
            r == Err::<usize, KernelError>(KernelError::IoError),
            *final(self) == *old(self),
    {
        Err(KernelError::IoError)
    }

    /// Directory indexes are not read: the listing is empty.
    open spec fn readdir_gives(&self, r: KernelResult<Vec<DirEntry>>) -> bool {
        r matches Ok(v) && v@.len() == 0
    }

    fn readdir(&self) -> (r: KernelResult<Vec<DirEntry>>) {
        Ok(Vec::new())
    }

    fn lookup(&self, name: &str) -> (r: KernelResult<Self>)
        ensures
            r matches Err(e) && e == KernelError::FileNotFound,
    {
        Err(KernelError::FileNotFound)
    }

    fn create(&mut self, name: &str, file_type: FileType) -> (r: KernelResult<Self>)
        ensures
            r matches Err(e) && e == KernelError::IoError,
    {
        Err(KernelError::IoError)
    }

    fn unlink(&mut self, name: &str) -> (r: KernelResult<()>)
        ensures
            r == Err::<(), KernelError>(KernelError::IoError),
    {
        Err(KernelError::IoError)
    }

    fn truncate(&mut self, size: u64) -> (r: KernelResult<()>)
        ensures
            r == Err::<(), KernelError>(KernelError::IoError),
    {
        Err(KernelError::IoError)
    }

    fn clone_inode(&self) -> (n: Self)
        ensures
            n.record_number_view() == self.record_number_view(),
            n.metadata_view() == self.metadata_view(),
            n.attrs_view() == self.attrs_view(),
            n.cluster_size_view() == self.cluster_size_view(),
    {
        NtfsInode {
            record_number: self.record_number,
            metadata: self.metadata,
            attributes: copy_attributes(&self.attributes),
            cluster_size: self.cluster_size,
        }
    }
}

fn root_directory_record() -> (r: MftRecord)
    ensures
        r@ == root_record(),
{
    let r = MftRecord {
        record_number: MFT_NUMBER_ROOT as u32,
        flags: MftRecordFlags::IN_USE | MftRecordFlags::IS_DIRECTORY,
        sequence_number: 1,
        attributes: Vec::new(),
        bytes_in_use: MFT_RECORD_SIZE as u32,
    };
    assert(MftRecordFlags::IN_USE | MftRecordFlags::IS_DIRECTORY == 3) by (bit_vector);
    assert(r@.attributes =~= Seq::<AttrView>::empty());
    r
}

fn all_zero(b: &Vec<u8>) -> (r: bool)
    ensures
        r == (forall|j: int| 0 <= j < b@.len() ==> b@[j] == 0),
{
    let mut i: usize = 0;
    while i < b.len()
        invariant
            i <= b@.len(),
            forall|j: int| 0 <= j < i ==> b@[j] == 0,
        decreases b@.len() - i,
    {
        if b[i] != 0 {
            return false;
        }
        i = i + 1;
    }
    true
}

impl NtfsVolume {
    /// The `size` bytes of the volume at `byte_offset`. The volume has no
    /// block device behind it, so every byte reads as zero.
    fn read_volume(&self, byte_offset: u64, size: usize) -> (b: Vec<u8>)
        ensures
            b@.len() == size,
            forall|j: int| 0 <= j < size ==> b@[j] == 0,
    {
        let mut b: Vec<u8> = Vec::new();
        let mut i: usize = 0;
        while i < size
            invariant
                i <= size,
                b@.len() == i,
                forall|j: int| 0 <= j < i ==> b@[j] == 0,
            decreases size - i,
        {
            b.push(0);
            i = i + 1;
        }
        b
    }

    /// MFT record `record_number`: from the cache when it was read before;
    /// otherwise read from the volume, where an empty record is the root
    /// directory's for the root's number and not found for any other.
    pub fn get_mft_record(&mut self, record_number: u64) -> (r: KernelResult<MftRecord>)
        requires
            old(self).bpb_view().record_size_ok(),
            record_byte_offset(old(self).bpb_view(), record_number) <= u64::MAX,
        ensures
            *final(self) == *old(self),
            match r {
                Ok(rec) => if old(self).cache_view().contains_key(record_number) {
                    rec@ == old(self).cache_view()[record_number]
                } else {
                    record_number == MFT_NUMBER_ROOT && rec@ == root_record()
                },
                Err(e) => !old(self).cache_view().contains_key(record_number) && record_number
                    != MFT_NUMBER_ROOT && e == KernelError::FileNotFound,
            },
    {
        match self.mft_cache.get(&record_number) {
            Some(record) => {
                return Ok(record.clone());
            },
            None => {},
        }
        let record_size = self.bpb.mft_record_size_bytes() as u64;
        proof {
            let a = self.bpb.mft_start_cluster as int;
            let b = self.bpb.cluster_size as int;
            let c = record_number as int;
            let d = record_size as int;
            assert(0 <= a * b && 0 <= c * d) by (nonlinear_arith)
                requires
                    0 <= a,
                    0 <= b,
                    0 <= c,
                    0 <= d,
            ;
        }
        let mft_byte_offset = self.bpb.mft_start_cluster * self.bpb.cluster_size as u64;
        let record_offset = mft_byte_offset + record_number * record_size;
        let buffer = self.read_volume(record_offset, record_size as usize);
        if all_zero(&buffer) {
            if record_number == MFT_NUMBER_ROOT {
                return Ok(root_directory_record());
            }
            return Err(KernelError::FileNotFound);
        }
        let mut record = match self.parse_mft_record(buffer.as_slice()) {
            Ok(rec) => rec,
            Err(e) => return Err(e),
        };
        record.record_number = record_number as u32;
        self.mft_cache.insert(record_number, record.clone());
        Ok(record)
    }
}

impl FileSystem for NtfsVolume {
    type Node = NtfsInode;

    open spec fn spec_fs_type(&self) -> FileSystemType {
        FileSystemType::NTFS
    }

    fn fs_type(&self) -> (r: FileSystemType) {
        FileSystemType::NTFS
    }

    fn label(&self) -> (r: &str)
        ensures
            r@ == "NTFS"@,
    {
        "NTFS"
    }

    /// The root directory, from the record used while the MFT holds none.
    open spec fn root_gives(&self, n: NtfsInode) -> bool {
        &&& n.record_number_view() == MFT_NUMBER_ROOT
        &&& n.metadata_view() == inode_metadata(root_record())
        &&& n.attrs_view() == root_record().attributes
        &&& n.cluster_size_view() == self.bpb_view().cluster_size
    }

    fn root_inode(&self) -> (n: NtfsInode) {
        let record = root_directory_record();
        NtfsInode::from_mft_record(&record, self.bpb.cluster_size as u64)
    }

    fn get_inode(&self, ino: u64) -> (r: KernelResult<NtfsInode>)
        ensures
            r matches Err(e) && e == KernelError::FileNotFound,
    {
        Err(KernelError::FileNotFound)
    }

    fn sync(&self) -> (r: KernelResult<()>)
        ensures
            r == Ok::<(), KernelError>(()),
    {
        Ok(())
    }

    /// Size from the sector count (the product kept to 64 bits), block size
    /// from the cluster size; free space and inode counts are not tracked.
    open spec fn statfs_gives(&self, r: KernelResult<FileSystemStats>) -> bool {
        r == Ok::<FileSystemStats, KernelError>(
            FileSystemStats {
                total_size: ((self.bpb_view().total_sectors as int
                    * self.bpb_view().bytes_per_sector as int) % 0x1_0000_0000_0000_0000) as u64,
                free_space: 0,
                total_inodes: 0,
                free_inodes: 0,
                block_size: self.bpb_view().cluster_size as u64,
                max_name_length: 255,
            },
        )
    }

    fn statfs(&self) -> (r: KernelResult<FileSystemStats>) {
        let total = self.bpb.total_sectors.wrapping_mul(self.bpb.bytes_per_sector as u64);
        Ok(
            FileSystemStats {
                total_size: total,
                free_space: 0,
                total_inodes: 0,
                free_inodes: 0,
                block_size: self.bpb.cluster_size as u64,
                max_name_length: 255,
            },
        )
    }
}

/// The boot sector `mount_ntfs` formats: the signature, 512-byte sectors and
/// eight sectors per cluster, every other byte zero.
pub open spec fn fresh_boot_sector(d: Seq<u8>) -> bool {
    &&& d.len() == 512
    &&& has_ntfs_signature(d)
    &&& d[11] == 0 && d[12] == 2 && d[13] == 8
    &&& forall|i: int| 0 <= i < 512 && !(3 <= i < 14) ==> d[i] == 0
}

fn fresh_boot_sector_bytes() -> (b: Vec<u8>)
    ensures
        fresh_boot_sector(b@),
{
    let mut b: Vec<u8> = Vec::new();
    let mut i: usize = 0;
    while i < 512
        invariant
            i <= 512,
            b@.len() == i,
            forall|j: int| 0 <= j < i ==> b@[j] == 0,
        decreases 512 - i,
    {
        b.push(0);
        i = i + 1;
    }
    b.set(3, 0x4E);
    b.set(4, 0x54);
    b.set(5, 0x46);
    b.set(6, 0x53);
    b.set(7, 0x20);
    b.set(8, 0x20);
    b.set(9, 0x20);
    b.set(10, 0x20);
    b.set(11, 0);
    b.set(12, 2);
    b.set(13, 8);
    b
}

/// Formats a boot sector (see `fresh_boot_sector`) for disk `disk_id` and
/// mounts the volume at "/"; a file system already mounted there is refused.
pub fn mount_ntfs(vfs: &mut Vfs<NtfsVolume>, disk_id: u32) -> (r: KernelResult<()>)
    requires
        old(vfs).wf(),
    ensures
        final(vfs).wf(),
        old(vfs)@.mounts.contains("/"@) ==> r == Err::<(), KernelError>(KernelError::PageAlreadyMapped)
            && final(vfs)@ == old(vfs)@,
        old(vfs)@.mounts.contains("/"@) ==> final(vfs).file_systems() == old(vfs).file_systems(),
        !old(vfs)@.mounts.contains("/"@) ==> {
            &&& r is Ok
            &&& final(vfs)@.mounts.to_set() == old(vfs)@.mounts.to_set().insert("/"@)
            &&& exists|i: int|
                0 <= i <= old(vfs)@.mounts.len() && final(vfs)@ == (#[trigger] mounted_at(
                    old(vfs)@,
                    i,
                    "/"@,
                    FileSystemType::NTFS,
                    MountFlags { read_only: false, no_exec: false, no_suid: false },
                )) && final(vfs).file_systems().len() == old(vfs).file_systems().len() + 1
        },
        final(vfs).nodes() == old(vfs).nodes(),
{
    let boot_sector = fresh_boot_sector_bytes();
    assert((boot_sector@[64] as i8) == 0) by {
        assert(boot_sector@[64] == 0);
    }
    let volume = match NtfsVolume::new(boot_sector.as_slice(), disk_id) {
        Ok(v) => v,
        Err(e) => return Err(e),
    };
    vfs.mount("/", volume, MountFlags::default())
}


/// The journal never holds more than `JOURNAL_CAPACITY` entries, and they
/// are the latest ones, numbered consecutively up to the last one logged.
pub proof fn law_journal_bounded(j: &NtfsJournal)
    requires
        j.wf(),
    ensures
        journal_shape(j.entries_view(), j.next_lsn()),
{
    lemma_wf_shape(j);
}

/// Logging keeps the latest entries: the new entry goes last with the next
/// number, the oldest is dropped only when `JOURNAL_CAPACITY` are kept, so
/// the length becomes the smaller of one more and the capacity, and the
/// numbers stay consecutive.
pub proof fn law_log_keeps_latest(es: Seq<EntryView>, lsn: u64, op: JournalOperation, name: Seq<char>, data: Seq<u8>)
    requires
        journal_shape(es, lsn),
        lsn < u64::MAX,
    ensures
        logged(es, lsn, op, name, data).len() == if es.len() + 1 <= JOURNAL_CAPACITY {
            es.len() + 1
        } else {
            JOURNAL_CAPACITY as nat
        },
        logged(es, lsn, op, name, data).last() == (EntryView { lsn, operation: op, file_name: name, data, timestamp: 0 }),
        logged(es, lsn, op, name, data).drop_last() == if es.len() == JOURNAL_CAPACITY {
            es.drop_first()
        } else {
            es
        },
        journal_shape(logged(es, lsn, op, name, data), (lsn + 1) as u64),
{
    let l = logged(es, lsn, op, name, data);
    let kept = if es.len() >= JOURNAL_CAPACITY {
        es.drop_first()
    } else {
        es
    };
    assert(l.drop_last() =~= kept);
    assert forall|i: int| 0 <= i < l.len() implies #[trigger] l[i].lsn == (lsn + 1) as u64 - l.len() + i by {
        if i < l.len() - 1 {
            if es.len() >= JOURNAL_CAPACITY {
                assert(l[i] == es[i + 1]);
            } else {
                assert(l[i] == es[i]);
            }
        }
    }
}

/// A checkpoint is the same as logging a `Checkpoint` operation with an
/// empty file name and no data: `checkpoint` leaves the entries that `log`
/// leaves for such a call on the same journal (both number the entry with
/// the next number and advance it by one), and the entry added is a
/// checkpoint with no name and no data.
pub proof fn law_checkpoint_is_logged(es: Seq<EntryView>, lsn: u64, name: Seq<char>, data: Seq<u8>)
    requires
        name.len() == 0,
        data.len() == 0,
    ensures
        logged(es, lsn, JournalOperation::Checkpoint, Seq::empty(), Seq::empty()) == logged(
            es,
            lsn,
            JournalOperation::Checkpoint,
            name,
            data,
        ),
        logged(es, lsn, JournalOperation::Checkpoint, name, data).last().operation == JournalOperation::Checkpoint,
        logged(es, lsn, JournalOperation::Checkpoint, name, data).last().file_name.len() == 0,
        logged(es, lsn, JournalOperation::Checkpoint, name, data).last().data.len() == 0,
{
    assert(name =~= Seq::<char>::empty());
    assert(data =~= Seq::<u8>::empty());
}

/// The same UTF-16 bytes decode to the same text wherever they stand.
proof fn lemma_utf16_moved(d1: Seq<u8>, s1: int, d2: Seq<u8>, s2: int, m: nat)
    requires
        0 <= s1,
        0 <= s2,
        s1 + 2 * m <= d1.len(),
        s2 + 2 * m <= d2.len(),
        forall|k: int| 0 <= k < 2 * m ==> #[trigger] d1[s1 + k] == d2[s2 + k],
    ensures
        utf16_chars(d1, s1, m) == utf16_chars(d2, s2, m),
    decreases m,
{
    if m > 0 {
        lemma_utf16_moved(d1, s1, d2, s2, (m - 1) as nat);
        let k = 2 * (m - 1);
        assert(d1[s1 + k] == d2[s2 + k]);
        assert(d1[s1 + (k + 1)] == d2[s2 + (k + 1)]);
        assert(le16(d1, s1 + k) == le16(d2, s2 + k));
    }
}

/// An attribute's name is the UTF-16 text that its header points at: its
/// name offset (bytes 10..12 of the header) counts from the header's own
/// start, and its name length (byte 9) in UTF-16 units. An attribute has a
/// name when the length is not zero and the name lies inside the
/// attribute's total size (bytes 4..8).
pub proof fn law_attribute_name(d: Seq<u8>, off: int)
    ensures
        ({
            let total = d[off + 4] + 0x100 * d[off + 5] + 0x1_0000 * d[off + 6] + 0x100_0000 * d[off + 7];
            let len = d[off + 9] as int;
            let at = d[off + 10] + 0x100 * d[off + 11];
            attr_at(d, off).name == if len > 0 && at + 2 * len <= total {
                Some(utf16_chars(d, off + at, len as nat))
            } else {
                None::<Seq<char>>
            }
        }),
{
}

/// The same attribute bytes parse to the same name wherever in a record
/// they stand: `n` bytes from `off1` of `d1` equal those from `off2` of
/// `d2`, and `n` is the attribute's total size.
pub proof fn law_attribute_name_moves(d1: Seq<u8>, off1: int, d2: Seq<u8>, off2: int, n: int)
    requires
        0 <= off1,
        0 <= off2,
        12 <= n,
        n == le32(d1, off1 + 4),
        off1 + n <= d1.len(),
        off2 + n <= d2.len(),
        forall|k: int| 0 <= k < n ==> #[trigger] d1[off1 + k] == d2[off2 + k],
    ensures
        attr_at(d1, off1).name == attr_at(d2, off2).name,
{
    assert(d1[off1 + 4] == d2[off2 + 4] && d1[off1 + 5] == d2[off2 + 5]);
    assert(d1[off1 + 6] == d2[off2 + 6] && d1[off1 + 7] == d2[off2 + 7]);
    assert(d1[off1 + 9] == d2[off2 + 9]);
    assert(d1[off1 + 10] == d2[off2 + 10] && d1[off1 + 11] == d2[off2 + 11]);
    let nl = d1[off1 + 9] as int;
    let no = le16(d1, off1 + 10);
    if nl > 0 && no + 2 * nl <= n {
        assert forall|k: int| 0 <= k < 2 * nl implies #[trigger] d1[off1 + no + k] == d2[off2 + no + k] by {
            assert(d1[off1 + (no + k)] == d2[off2 + (no + k)]);
        }
        lemma_utf16_moved(d1, off1 + no, d2, off2 + no, nl as nat);
    }
}

} // verus!
