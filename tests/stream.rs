use grimarz::cli::Error as CliError;
use grimarz::stream::{u16_at, u32_at, u64_at, ByteStream, IoError};

#[test]
fn integers_are_little_endian() {
    let b = [1u8, 2, 3, 4, 5, 6, 7, 8, 9];
    assert_eq!(u16_at(&b, 0), 0x0201);
    assert_eq!(u16_at(&b, 7), 0x0908);
    assert_eq!(u32_at(&b, 1), 0x0504_0302);
    assert_eq!(u64_at(&b, 1), 0x0908_0706_0504_0302);
}

#[test]
fn reads_advance_and_short_reads_stay() {
    let mut s = ByteStream::new(vec![1, 0, 0, 0, 2, 0, 0, 0, 0, 0, 0, 0, b'h', b'i']);
    assert_eq!(s.read_u32(), Ok(1));
    assert_eq!(s.read_u64(), Ok(2));
    assert_eq!(s.position(), 12);
    assert_eq!(s.read_u32(), Err(IoError::UnexpectedEof));
    assert_eq!(s.position(), 12);
    assert_eq!(s.read_lossy(2), Ok("hi".to_string()));
    assert_eq!(s.read_exact(1), Err(IoError::UnexpectedEof));
    s.seek(4);
    assert_eq!(s.read_exact(2), Ok(vec![2, 0]));
    s.seek(100);
    assert_eq!(s.read_exact(0), Err(IoError::UnexpectedEof));
    assert_eq!(s.position(), 100);
}

#[test]
fn cli_messages() {
    assert_eq!(
        CliError::InvalidInput.message(),
        "Missing argument for .arz file path! Cannot continue."
    );
    assert_eq!(CliError::Io.message(), "Failed to open the given file for reading.");
    assert_eq!(
        CliError::InvalidHeader.message(),
        "Invalid file header, cannot read the given file as an ARZ database!"
    );
}
