use mm0_rs::environment::Environment;
use mm0_rs::export::cmd::ExportError;
use mm0_rs::export::exporter::Exporter;
use mm0_rs::syntax::{FileRef, FileSpan, Modifiers, Span, PROVABLE};

fn fsp(start: usize, end: usize) -> FileSpan {
    FileSpan { file: FileRef(0), span: Span { start, end } }
}

fn export(env: &Environment) -> Result<Vec<u8>, ExportError> {
    let mut ex = Exporter::new(env);
    ex.run()?;
    Ok(ex.output().clone())
}

#[test]
fn empty_environment_has_fixed_file() {
    let env = Environment::new();
    let bytes = export(&env).unwrap();
    let mut expected: Vec<u8> = Vec::new();
    expected.extend_from_slice(b"MM0B");
    expected.extend_from_slice(&[1, 0, 0, 0]);
    expected.extend_from_slice(&[0, 0, 0, 0]);
    expected.extend_from_slice(&[0, 0, 0, 0]);
    expected.extend_from_slice(&[40, 0, 0, 0]);
    expected.extend_from_slice(&[40, 0, 0, 0]);
    expected.extend_from_slice(&[40, 0, 0, 0, 0, 0, 0, 0]);
    expected.extend_from_slice(&[0, 0, 0, 0, 0, 0, 0, 0]);
    expected.push(0);
    assert_eq!(bytes, expected);
    assert_eq!(bytes.len(), 41);
}

#[test]
fn one_sort_file() {
    let mut env = Environment::new();
    let id = env.add_sort("wff".to_string(), fsp(0, 3), Modifiers(PROVABLE));
    assert!(matches!(id, Ok(s) if s.0 == 0));
    let bytes = export(&env).unwrap();
    assert_eq!(&bytes[0..4], b"MM0B");
    assert_eq!(&bytes[4..8], &[1, 1, 0, 0]);
    assert_eq!(&bytes[8..16], &[0u8; 8]);
    assert_eq!(&bytes[16..20], &[48, 0, 0, 0]);
    assert_eq!(&bytes[20..24], &[48, 0, 0, 0]);
    assert_eq!(&bytes[24..32], &[48, 0, 0, 0, 0, 0, 0, 0]);
    assert_eq!(&bytes[32..40], &[0u8; 8]);
    assert_eq!(bytes[40], 0x04);
    assert_eq!(&bytes[41..48], &[0u8; 7]);
    assert_eq!(&bytes[48..], &[0x44, 0x02, 0x00]);
}
