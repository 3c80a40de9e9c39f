//! Compresses the archived pages into the gzip artifact that GitHub Pages
//! Actions take up.

use vstd::prelude::*;

use flate2::write::GzEncoder;
use flate2::Compression;
use std::io::Write;

verus! {

#[verifier::external_type_specification]
#[verifier::external_body]
pub struct ExIoError(std::io::Error);

/// A gzip encoder into an in-memory buffer: flate2's
/// `write::GzEncoder` over a `Vec<u8>`, which takes the archive and gives
/// back the compressed bytes.
#[verifier::external_body]
pub struct GzipWriter {
    encoder: GzEncoder<Vec<u8>>,
}

/// The gzip member that flate2 writes for `data` at the default
/// compression level: a function of `data` alone.
pub uninterp spec fn gzip_member(data: Seq<u8>) -> Seq<u8>;

/// The input that a gzip writer has taken so far.
pub uninterp spec fn gzip_input(writer: GzipWriter) -> Seq<u8>;

impl GzipWriter {
    /// `flate2::write::GzEncoder::new` over an empty buffer at
    /// `Compression::default()`: the encoder has taken no input yet.
    #[verifier::external_body]
    fn new() -> (writer: GzipWriter)
        ensures
            gzip_input(writer) == Seq::<u8>::empty(),
    {
        GzipWriter { encoder: GzEncoder::new(Vec::new(), Compression::default()) }
    }

    /// `Write::write_all` on the encoder, which is given all its input in
    /// this one call. Writing into a `Vec<u8>` cannot fail, so the write
    /// succeeds and the encoder has taken `data`.
    #[verifier::external_body]
    fn write_all(&mut self, data: &[u8]) -> (written: Result<(), std::io::Error>)
        requires
            gzip_input(*old(self)).len() == 0,
        ensures
            written is Ok && gzip_input(*final(self)) == data@,
    {
        self.encoder.write_all(data)
    }

    /// `GzEncoder::finish`: the header, the rest of the compressed stream
    /// and the trailer go into the `Vec<u8>`, which cannot fail, and the
    /// buffer then holds the whole gzip member of the input.
    #[verifier::external_body]
    fn finish(self) -> (compressed: Result<Vec<u8>, std::io::Error>)
        ensures
            compressed is Ok,
            compressed matches Ok(bytes) ==> bytes@ == gzip_member(gzip_input(self)),
    {
        self.encoder.finish()
    }
}

/// The text of an I/O error (`ToString::to_string`); nothing is stated of
/// the text.
#[verifier::external_body]
fn io_error_text(error: &std::io::Error) -> String {
    error.to_string()
}

/// Why an artifact could not be made.
#[derive(Debug)]
pub enum ArtifactError {
    /// The compressor reported an error, with its text.
    Compression(String),
}

/// A compressed artifact and the path where it goes.
pub struct Artifact {
    /// Destination path for the compressed archive.
    pub path: String,
    /// The gzip-compressed archive.
    pub bytes: Vec<u8>,
}

/// Gzip-compresses `archive`; compressing into memory always succeeds.
pub fn gzip(archive: &[u8]) -> (compressed: Result<Vec<u8>, ArtifactError>)
    ensures
        compressed matches Ok(bytes) && bytes@ == gzip_member(archive@),
{
    let mut encoder = GzipWriter::new();
    match encoder.write_all(archive) {
        Ok(()) => {},
        Err(e) => {
            return Err(ArtifactError::Compression(io_error_text(&e)));
        },
    }
    match encoder.finish() {
        Ok(bytes) => Ok(bytes),
        Err(e) => Err(ArtifactError::Compression(io_error_text(&e))),
    }
}

/// The artifact at `artifact` made of the outcome of the compression.
pub fn artifact_at(artifact: &str, compressed: Result<Vec<u8>, ArtifactError>) -> (made: Result<
    Artifact,
    ArtifactError,
>)
    ensures
        match compressed {
            Ok(bytes) => made matches Ok(a) && a.path@ == artifact@ && a.bytes == bytes,
            Err(e) => made matches Err(f) && f == e,
        },
{
    match compressed {
        Ok(bytes) => Ok(Artifact { path: artifact.to_owned(), bytes }),
        Err(e) => Err(e),
    }
}

/// Compresses the tar archive of the generated pages into the artifact at
/// `artifact`.
pub fn create_artifact(archive: &[u8], artifact: &str) -> (made: Result<Artifact, ArtifactError>)
    ensures
        made matches Ok(a) && a.path@ == artifact@ && a.bytes@ == gzip_member(archive@),
{
    artifact_at(artifact, gzip(archive))
}

/// Creates the default pages artifact, `pages-artifact.tar.gz` in the
/// working directory.
pub fn publish_github_pages(archive: &[u8]) -> (made: Result<Artifact, ArtifactError>)
    ensures
        made matches Ok(a) && a.path@ == "pages-artifact.tar.gz"@ && a.bytes@ == gzip_member(
            archive@,
        ),
{
    create_artifact(archive, "pages-artifact.tar.gz")
}

/// Creates a pages artifact at the requested path for GitHub Pages Actions.
pub fn deploy_github_pages(archive: &[u8], artifact: &str) -> (made: Result<
    Artifact,
    ArtifactError,
>)
    ensures
        made matches Ok(a) && a.path@ == artifact@ && a.bytes@ == gzip_member(archive@),
{
    create_artifact(archive, artifact)
}

} // verus!
