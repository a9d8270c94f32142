use dbfs2::error::{DbfsError, DbfsResult};
use dbfs2::log_manager::{crc32, BlockDevice, LogManager};

struct RamDisk {
    data: Vec<u8>,
}

impl BlockDevice for RamDisk {
    fn read_at(&self, pos: u64, buf: &mut [u8]) -> DbfsResult<usize> {
        let pos = pos as usize;
        if pos >= self.data.len() {
            return Ok(0);
        }
        let end = core::cmp::min(pos + buf.len(), self.data.len());
        let len = end - pos;
        buf[..len].copy_from_slice(&self.data[pos..end]);
        Ok(len)
    }

    fn write_at(&mut self, pos: u64, buf: &[u8]) -> DbfsResult<usize> {
        let pos = pos as usize;
        if pos >= self.data.len() {
            return Ok(0);
        }
        let end = core::cmp::min(pos + buf.len(), self.data.len());
        let len = end - pos;
        self.data[pos..end].copy_from_slice(&buf[..len]);
        Ok(len)
    }

    fn size(&self) -> u64 {
        self.data.len() as u64
    }

    fn flush(&mut self) -> DbfsResult<()> {
        Ok(())
    }
}

#[test]
fn crc32_of_check_string() {
    assert_eq!(crc32(b"123456789"), 0xCBF4_3926);
    assert_eq!(crc32(b""), 0);
}

#[test]
fn append_returns_position_before_advance() {
    let mut log = LogManager::new(RamDisk { data: vec![0u8; 64] }, 16);
    assert_eq!(log.append_data(b"abcd"), Ok(16));
    assert_eq!(log.next_append_pos(), 20);
    let mut buf = [0u8; 4];
    assert_eq!(log.read_data(16, &mut buf), Ok(4));
    assert_eq!(&buf, b"abcd");
    assert_eq!(log.append_data(&[0u8; 64]), Err(DbfsError::IoError));
    assert_eq!(log.next_append_pos(), 20);
}

#[test]
fn append_returns_checksum_of_payload() {
    let mut log = LogManager::new(RamDisk { data: vec![0u8; 32] }, 4);
    assert_eq!(log.append_checksummed(b"123456789"), Ok((4, 0xCBF4_3926)));
    assert_eq!(log.next_append_pos(), 13);
    assert_eq!(log.append_checksummed(&[0u8; 20]), Err(DbfsError::IoError));
    assert_eq!(log.next_append_pos(), 13);
    assert_eq!(log.flush(), Ok(()));
    let device = log.into_device();
    assert_eq!(&device.data[4..13], b"123456789");
    assert_eq!(&device.data[..4], &[0u8; 4]);
}
