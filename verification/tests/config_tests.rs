use compression_tool::config::CompressionLevel;
use compression_tool::config::TransferConfig;
use compression_tool::config::DEFAULT_CHUNK_SIZE;
use compression_tool::config::DEFAULT_LEVEL;
use compression_tool::config::MAX_LEVEL;
use compression_tool::error::exit_code;
use compression_tool::error::TransferError;

#[test]
fn levels_zero_to_nine_are_accepted() {
    for level in 0..=9u32 {
        let made = CompressionLevel::new(level).expect("level in range");
        assert_eq!(made.get(), level);
    }
}

#[test]
fn levels_above_nine_are_rejected() {
    assert!(CompressionLevel::new(10).is_none());
    assert!(CompressionLevel::new(11).is_none());
    assert!(CompressionLevel::new(u32::MAX).is_none());
}

#[test]
fn default_level_is_six() {
    assert_eq!(CompressionLevel::default().get(), 6);
    assert_eq!(DEFAULT_LEVEL, 6);
    assert_eq!(MAX_LEVEL, 9);
}

#[test]
fn default_config_uses_eight_kib_chunks_and_reports() {
    let config = TransferConfig::default();
    assert_eq!(config.chunk_size(), 8192);
    assert_eq!(DEFAULT_CHUNK_SIZE, 8192);
    assert!(config.report_progress());
}

#[test]
fn chunk_size_zero_is_rejected() {
    assert!(TransferConfig::new(0, true).is_none());
    assert!(TransferConfig::new(0, false).is_none());
}

#[test]
fn config_keeps_what_it_was_given() {
    let config = TransferConfig::new(1, false).expect("chunk size one");
    assert_eq!(config.chunk_size(), 1);
    assert!(!config.report_progress());
    let config = TransferConfig::new(4 * 1024 * 1024, true).expect("large chunk size");
    assert_eq!(config.chunk_size(), 4 * 1024 * 1024);
    assert!(config.report_progress());
}

#[test]
fn error_messages() {
    assert_eq!(TransferError::NotFound.message(), "Input file not found");
    assert_eq!(TransferError::ReadError.message(), "Failed to read from the input");
    assert_eq!(TransferError::WriteError.message(), "Failed to write to the output");
    assert_eq!(TransferError::CodecError.message(), "Input is not a valid gzip stream");
}

#[test]
fn write_class_errors() {
    assert!(TransferError::WriteError.is_write_class());
    assert!(TransferError::CodecError.is_write_class());
    assert!(!TransferError::ReadError.is_write_class());
    assert!(!TransferError::NotFound.is_write_class());
}

#[test]
fn exit_code_is_zero_only_on_success() {
    assert_eq!(exit_code(&Ok(())), 0);
    assert_eq!(exit_code(&Err(TransferError::NotFound)), 1);
    assert_eq!(exit_code(&Err(TransferError::ReadError)), 1);
    assert_eq!(exit_code(&Err(TransferError::WriteError)), 1);
    assert_eq!(exit_code(&Err(TransferError::CodecError)), 1);
}
