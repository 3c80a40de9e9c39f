//! Compression of the archived pages into the artifact.

use std::io::Read;

use flate2::read::GzDecoder;
use qubit_infra_pages::artifact::artifact_at;
use qubit_infra_pages::artifact::gzip;
use qubit_infra_pages::artifact::ArtifactError;
use qubit_infra_pages::create_artifact;
use qubit_infra_pages::deploy_github_pages;
use qubit_infra_pages::publish_github_pages;
use tar::Archive;
use tar::Builder;
use tar::Header;

fn pages_archive() -> Vec<u8> {
    let mut builder = Builder::new(Vec::new());
    let mut header = Header::new_gnu();
    header.set_size(5);
    header.set_mode(0o644);
    header.set_cksum();
    builder.append_data(&mut header, "./index.html", &b"hello"[..]).expect("entry should be added");
    builder.into_inner().expect("archive should be finished")
}

fn gunzip(bytes: &[u8]) -> Vec<u8> {
    let mut out = Vec::new();
    GzDecoder::new(bytes).read_to_end(&mut out).expect("artifact should decompress");
    out
}

#[test]
fn test_creates_github_pages_artifact_without_external_tools() {
    let archive = pages_archive();
    let artifact = create_artifact(&archive, "pages.tar.gz").expect("pages artifact should be created");
    assert_eq!(artifact.path, "pages.tar.gz");
    let decoder = GzDecoder::new(&artifact.bytes[..]);
    let mut archive = Archive::new(decoder);
    let names: Vec<_> = archive
        .entries()
        .expect("archive entries should be readable")
        .map(|entry| {
            entry
                .expect("archive entry should be readable")
                .path()
                .expect("archive entry path should be valid")
                .to_string_lossy()
                .into_owned()
        })
        .collect();
    assert!(names.iter().any(|name| name.ends_with("index.html")));
}

#[test]
fn compression_is_gzip_of_the_archive() {
    let data = b"<html>pages</html>".repeat(50);
    let compressed = gzip(&data).expect("compression should succeed");
    assert_ne!(compressed, data);
    assert_eq!(&compressed[..2], &[0x1f, 0x8b]);
    assert_eq!(gunzip(&compressed), data);
    assert_eq!(gzip(&data).expect("compression should succeed"), compressed);
    assert_eq!(gunzip(&gzip(&[]).expect("compression should succeed")), Vec::<u8>::new());
}

#[test]
fn default_artifact_goes_to_the_working_directory() {
    let archive = pages_archive();
    let artifact = publish_github_pages(&archive).expect("artifact should be created");
    assert_eq!(artifact.path, "pages-artifact.tar.gz");
    assert_eq!(gunzip(&artifact.bytes), archive);
    let deployed = deploy_github_pages(&archive, "out/site.tar.gz").expect("artifact should be created");
    assert_eq!(deployed.path, "out/site.tar.gz");
    assert_eq!(deployed.bytes, artifact.bytes);
}

#[test]
fn compression_errors_pass_through() {
    let failed = artifact_at("a.tar.gz", Err(ArtifactError::Compression("disk full".to_string())));
    match failed {
        Err(ArtifactError::Compression(message)) => assert_eq!(message, "disk full"),
        Ok(_) => panic!("an error was expected"),
    }
    let made = artifact_at("a.tar.gz", Ok(vec![1, 2, 3])).expect("artifact should be made");
    assert_eq!(made.path, "a.tar.gz");
    assert_eq!(made.bytes, vec![1, 2, 3]);
}
