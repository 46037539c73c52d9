//! The decisions of the fmac control interface: which kernel operation a
//! caller asks for, how the kernel's answers become results, and the
//! fixed-size text fields of the control requests.

use vstd::prelude::*;
use vstd::utf8::*;

use crate::error::Error;

verus! {

/// The operations that the kernel side offers through `prctl`.
#[derive(Clone, Copy, Debug, PartialEq, Eq, Structural)]
pub enum KernelOp {
    Authenticate,
    GetRoot,
    Ioctl,
}

/// The number of each operation: 1, 2 and 3.
pub open spec fn op_number(op: KernelOp) -> u32 {
    match op {
        KernelOp::Authenticate => 1,
        KernelOp::GetRoot => 2,
        KernelOp::Ioctl => 3,
    }
}

/// The operation numbered `value`, if there is one.
pub open spec fn op_from_number(value: int) -> Option<KernelOp> {
    if value == 1 {
        Some(KernelOp::Authenticate)
    } else if value == 2 {
        Some(KernelOp::GetRoot)
    } else if value == 3 {
        Some(KernelOp::Ioctl)
    } else {
        None
    }
}

/// Each operation is found again from its number.
pub proof fn law_op_number_roundtrip(op: KernelOp)
    ensures
        op_from_number(op_number(op) as int) == Some(op),
{
}

impl KernelOp {
    /// The operation with the number `value`, if there is one.
    pub fn from_code(value: i32) -> (r: Option<KernelOp>)
        ensures
            r == op_from_number(value as int),
    {
        match value {
            1 => Some(KernelOp::Authenticate),
            2 => Some(KernelOp::GetRoot),
            3 => Some(KernelOp::Ioctl),
            _ => None,
        }
    }

    /// The `prctl` option that asks for the operation: its number plus 200.
    pub fn prctl_option(self) -> (nr: u32)
        ensures
            nr == op_number(self) + 200,
    {
        match self {
            KernelOp::Authenticate => 201,
            KernelOp::GetRoot => 202,
            KernelOp::Ioctl => 203,
        }
    }
}

/// The result of `prctl(nr, ..)` that returned `ret` with `errno` set:
/// a negative return is the error, any other is the value.
pub fn prctl_result(nr: u32, ret: i32, errno: i32) -> (r: Result<usize, Error>)
    ensures
        ret < 0 ==> r == Err::<usize, Error>(Error::Prctl { op: nr, errno }),
        ret >= 0 ==> r == Ok::<usize, Error>(ret as usize),
{
    if ret < 0 {
        Err(Error::Prctl { op: nr, errno })
    } else {
        Ok(ret as usize)
    }
}

/// The result of `ioctl(fd, cmd, ..)` that returned `ret` with `errno`
/// set: a negative return is the error.
pub fn ioctl_result(cmd: u32, ret: i32, errno: i32) -> (r: Result<(), Error>)
    ensures
        ret < 0 ==> r == Err::<(), Error>(Error::Ioctl { cmd, errno }),
        ret >= 0 ==> r == Ok::<(), Error>(()),
{
    if ret < 0 {
        Err(Error::Ioctl { cmd, errno })
    } else {
        Ok(())
    }
}

/// The `ioctl` type of the fmac device, `'F'`.
pub const FMAC_MAGIC: u32 = 0x46;

/// An `ioctl` request number: direction in bits 30..32 (0 none, 1 write,
/// 2 read, 3 both), argument size in bits 16..30, type in bits 8..16,
/// number in bits 0..8.
pub open spec fn spec_ioc(dir: u32, ty: u32, nr: u32, size: u32) -> u32 {
    ((dir << 30u32) | (size << 16u32) | (ty << 8u32) | nr) as u32
}

/// Builds an `ioctl` request number from its direction, type, number and
/// argument size.
pub fn ioc(dir: u32, ty: u32, nr: u32, size: u32) -> (r: u32)
    ensures
        r == spec_ioc(dir, ty, nr, size),
{
    (dir << 30u32) | (size << 16u32) | (ty << 8u32) | nr
}

/// An `ioctl` request number keeps each of its parts, within the width of
/// its bits, where the kernel reads it back: the direction in bits 30..32,
/// the argument size unchanged in bits 16..30, the type in bits 8..16 and
/// the number in bits 0..8.
pub proof fn law_ioc_fields(dir: u32, ty: u32, nr: u32, size: u32)
    requires
        dir < 4,
        ty < 0x100,
        nr < 0x100,
        size < 0x4000,
    ensures
        spec_ioc(dir, ty, nr, size) >> 30u32 == dir,
        (spec_ioc(dir, ty, nr, size) >> 16u32) & 0x3fffu32 == size,
        (spec_ioc(dir, ty, nr, size) >> 8u32) & 0xffu32 == ty,
        spec_ioc(dir, ty, nr, size) & 0xffu32 == nr,
{
    let r = spec_ioc(dir, ty, nr, size);
    assert(r == ((dir << 30u32) | (size << 16u32) | (ty << 8u32) | nr) as u32);
    assert(dir < 4 && ty < 0x100 && nr < 0x100 && size < 0x4000 ==> {
        let x = (dir << 30u32) | (size << 16u32) | (ty << 8u32) | nr;
        &&& x >> 30u32 == dir
        &&& (x >> 16u32) & 0x3fffu32 == size
        &&& (x >> 8u32) & 0xffu32 == ty
        &&& x & 0xffu32 == nr
    }) by (bit_vector);
}

/// `_IO(FMAC_MAGIC, 0)`: ask for the shared memory.
pub const IOC_GET_SHM: u32 = (0x46u32 << 8u32) | 0;
/// `_IOW(FMAC_MAGIC, 1, int)`: bind an event descriptor.
pub const IOC_BIND_EVT: u32 = (1u32 << 30u32) | (4u32 << 16u32) | (0x46u32 << 8u32) | 1;
/// `_IOR(FMAC_MAGIC, 2, int)`: check for writes.
pub const IOC_CHK_WRITE: u32 = (2u32 << 30u32) | (4u32 << 16u32) | (0x46u32 << 8u32) | 2;
/// `_IOW(FMAC_MAGIC, 3, int)`: add a uid.
pub const IOC_ADD_UID: u32 = (1u32 << 30u32) | (4u32 << 16u32) | (0x46u32 << 8u32) | 3;
/// `_IOW(FMAC_MAGIC, 4, int)`: remove a uid.
pub const IOC_DEL_UID: u32 = (1u32 << 30u32) | (4u32 << 16u32) | (0x46u32 << 8u32) | 4;
/// `_IOWR(FMAC_MAGIC, 5, int)`: ask whether a uid is present.
pub const IOC_HAS_UID: u32 = (3u32 << 30u32) | (4u32 << 16u32) | (0x46u32 << 8u32) | 5;

/// The request numbers above are `spec_ioc` of their direction, type,
/// number and the size of an `int` (4 bytes).
pub proof fn law_request_numbers()
    ensures
        IOC_GET_SHM == spec_ioc(0, FMAC_MAGIC, 0, 0),
        IOC_BIND_EVT == spec_ioc(1, FMAC_MAGIC, 1, 4),
        IOC_CHK_WRITE == spec_ioc(2, FMAC_MAGIC, 2, 4),
        IOC_ADD_UID == spec_ioc(1, FMAC_MAGIC, 3, 4),
        IOC_DEL_UID == spec_ioc(1, FMAC_MAGIC, 4, 4),
        IOC_HAS_UID == spec_ioc(3, FMAC_MAGIC, 5, 4),
{
    assert(((0u32 << 30u32) | (0u32 << 16u32) | (0x46u32 << 8u32) | 0u32) == (0x46u32 << 8u32) | 0u32) by (bit_vector);
}

/// The result of the request that asks whether a uid is present: `ioctl`
/// returned `ret` with `errno` set, and the kernel left `answer` in the
/// request's argument.  A negative return is the error; otherwise the uid
/// is present when `answer` is not 0.
pub fn has_uid_result(ret: i32, errno: i32, answer: i32) -> (r: Result<bool, Error>)
    ensures
        ret < 0 ==> r == Err::<bool, Error>(Error::Ioctl { cmd: IOC_HAS_UID, errno }),
        ret >= 0 ==> r == Ok::<bool, Error>(answer != 0),
{
    match ioctl_result(IOC_HAS_UID, ret, errno) {
        Err(e) => Err(e),
        Ok(()) => Ok(answer != 0),
    }
}

/// The 64-byte field that `write_str64` fills from the bytes `s`: the
/// first 64 bytes of `s`, then zeros.
pub open spec fn str64(s: Seq<u8>) -> Seq<u8> {
    Seq::new(64, |i: int| if i < s.len() { s[i] } else { 0u8 })
}

/// Fills a 64-byte text field of a control request: zeros, overwritten by
/// the bytes of `s` as far as they go.  A text of 64 bytes or more is cut
/// to 64 bytes and has no terminating NUL.
pub fn write_str64(dst: &mut [u8; 64], s: &str)
    ensures
        final(dst)@ == str64(encode_utf8(s@)),
{
    let b = s.as_bytes();
    let mut i: usize = 0;
    while i < 64
        invariant
            i <= 64,
            dst@.len() == 64,
            forall|j: int| 0 <= j < i ==> #[trigger] dst@[j] == 0u8,
        decreases 64 - i,
    {
        dst[i] = 0u8;
        i = i + 1;
    }
    let mut i: usize = 0;
    while i < 64 && i < b.len()
        invariant
            i <= 64,
            i <= b@.len(),
            dst@.len() == 64,
            b@ == encode_utf8(s@),
            forall|j: int| 0 <= j < 64 ==> #[trigger] dst@[j] == if j < i { b@[j] } else { 0u8 },
        decreases 64 - i,
    {
        dst[i] = b[i];
        i = i + 1;
    }
    assert forall|j: int| 0 <= j < 64 implies #[trigger] dst@[j] == str64(b@)[j] by {
        assert(dst@[j] == if j < i { b@[j] } else { 0u8 });
    }
    assert(dst@ =~= str64(b@));
}

} // verus!
