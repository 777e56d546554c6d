use core_probe::gui_qr::{build_qr_content, generate_qr_matrix};

#[test]
fn test_build_qr_content_single_core() {
    assert_eq!(build_qr_content(&[5]), "Failed BIOS cores: 5");
}

#[test]
fn test_build_qr_content_multiple_cores() {
    assert_eq!(build_qr_content(&[2, 5, 8]), "Failed BIOS cores: 2, 5, 8");
}

#[test]
fn test_build_qr_content_all_cores() {
    let cores: Vec<u32> = (0..12).collect();
    let content = build_qr_content(&cores);

    assert!(content.contains("0, 1, 2, 3, 4, 5, 6, 7, 8, 9, 10, 11"));
}

#[test]
fn test_build_qr_content_empty() {
    assert_eq!(build_qr_content(&[]), "Failed BIOS cores: (none)");
}

#[test]
fn test_build_qr_content_sorted() {
    assert_eq!(build_qr_content(&[8, 2, 5]), "Failed BIOS cores: 2, 5, 8");
}

#[test]
fn test_generate_qr_matrix_valid() {
    let matrix = generate_qr_matrix("Failed BIOS cores: 2, 5, 8")
        .expect("valid QR content should generate a matrix");

    assert!(matrix.size > 0);
}

#[test]
fn test_generate_qr_matrix_dimensions() {
    let matrix = generate_qr_matrix("Failed BIOS cores: 2, 5, 8")
        .expect("valid QR content should generate a matrix");

    assert_eq!(matrix.modules.len(), matrix.size);
    assert!(matrix.modules.iter().all(|row| row.len() == matrix.size));
}

#[test]
fn test_qr_max_content() {
    let content = build_qr_content(&(0..16).collect::<Vec<_>>());
    let matrix = generate_qr_matrix(&content).expect("worst case content should generate");

    assert!(matrix.size <= 41);
}

#[test]
fn repeated_indices_are_kept_in_order() {
    assert_eq!(build_qr_content(&[3, 3, 1]), "Failed BIOS cores: 1, 3, 3");
}

#[test]
fn text_too_long_for_any_qr_version_is_refused() {
    let content = "9".repeat(8000);
    let result = generate_qr_matrix(&content);
    assert!(result.is_err());
    assert_eq!(result.unwrap_err().message(), "failed to build QR code");
}

#[test]
fn matrix_is_not_the_empty_grid() {
    let matrix = generate_qr_matrix("Failed BIOS cores: 2").expect("short text encodes");
    assert!(matrix.size >= 21);
    assert!(matrix.modules.iter().flatten().any(|m| *m));
    assert!(matrix.modules.iter().flatten().any(|m| !*m));
}

#[test]
fn test_qr_roundtrip() {
    let content = "Failed BIOS cores: 2, 5, 8";
    let matrix = generate_qr_matrix(content).expect("valid QR content should generate a matrix");

    let grid = qr_code::decode::SimpleGrid::from_func(matrix.size, |x, y| matrix.modules[y][x]);
    let decoded = qr_code::decode::Grid::new(grid).decode().expect("QR matrix should decode").1;

    assert_eq!(decoded, content);
}
