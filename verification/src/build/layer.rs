//! Layers: a compressed archive, its digest, and the digest of what it holds.
use crate::digest::{content_digest, digest_of};
use crate::image::{plain_descriptor, Descriptor, DescriptorModel, MediaType};
use crate::text::{glue, outcome};
use flate2::write::GzEncoder;
use flate2::Compression;
use std::io::Write;
use vstd::prelude::*;

verus! {

/// What compressing the bytes gives, or the message of the failure and whether it
/// came only when the output was finished.
pub uninterp spec fn gzipped(data: Seq<u8>) -> Result<Seq<u8>, (bool, Seq<char>)>;

/// A compression result as a mathematical value.
pub open spec fn gzip_outcome(result: Result<Vec<u8>, (bool, String)>) -> Result<
    Seq<u8>,
    (bool, Seq<char>),
> {
    match result {
        Ok(bytes) => Ok(bytes@),
        Err((finishing, message)) => Err((finishing, message@)),
    }
}

/// `GzEncoder::write_all` and `GzEncoder::finish` on a buffer in memory, at the
/// default level: the compressed bytes, or the message of the error and which of the
/// two gave it, are a function of the data.
#[verifier::external_body]
fn gzip(data: &[u8]) -> (result: Result<Vec<u8>, (bool, String)>)
    ensures
        gzip_outcome(result) == gzipped(data@),
{
    let mut encoder = GzEncoder::new(Vec::new(), Compression::default());
    match encoder.write_all(data) {
        Ok(()) => match encoder.finish() {
            Ok(compressed) => Ok(compressed),
            Err(problem) => Err((true, problem.to_string())),
        },
        Err(problem) => Err((false, problem.to_string())),
    }
}

/// A layer that a build step made.
pub struct BuiltLayer {
    pub descriptor: Descriptor,
    /// The digest of the archive before compression.
    pub diff_id: String,
}

/// A [`BuiltLayer`] as a mathematical value.
#[verifier::ext_equal]
pub struct LayerModel {
    pub descriptor: DescriptorModel,
    pub diff_id: Seq<char>,
}

impl DeepView for BuiltLayer {
    type V = LayerModel;

    open spec fn deep_view(&self) -> LayerModel {
        LayerModel { descriptor: self.descriptor.deep_view(), diff_id: self.diff_id@ }
    }
}

/// A layer with the blob that is stored for it.
pub struct PackedLayer {
    pub layer: BuiltLayer,
    pub blob: Vec<u8>,
}

impl DeepView for PackedLayer {
    type V = (LayerModel, Seq<u8>);

    open spec fn deep_view(&self) -> (LayerModel, Seq<u8>) {
        (self.layer.deep_view(), self.blob@)
    }
}

/// The layer of an archive, given what compressing it gave.
pub open spec fn packed(
    archive: Seq<u8>,
    compressed: Result<Seq<u8>, (bool, Seq<char>)>,
) -> Result<(LayerModel, Seq<u8>), Seq<char>> {
    match compressed {
        Err((false, problem)) => Err("Failed to compress build layer: "@ + problem),
        Err((true, problem)) => Err("Failed to finish build layer compression: "@ + problem),
        Ok(blob) => Ok(
            (
                LayerModel {
                    descriptor: plain_descriptor(
                        MediaType::OciLayerGzip.name(),
                        digest_of(blob),
                        blob.len() as u64,
                    ),
                    diff_id: digest_of(archive),
                },
                blob,
            ),
        ),
    }
}

/// The layer of an archive, given what compressing it gave.
pub fn pack_compressed(archive: &[u8], compressed: Result<Vec<u8>, (bool, String)>) -> (result:
    Result<PackedLayer, String>)
    ensures
        outcome(result) == packed(archive@, gzip_outcome(compressed)),
{
    match compressed {
        Err((finishing, problem)) => if finishing {
            Err(glue("Failed to finish build layer compression: ", &problem))
        } else {
            Err(glue("Failed to compress build layer: ", &problem))
        },
        Ok(blob) => {
            let digest = content_digest(&blob);
            let size = blob.len() as u64;
            let layer = BuiltLayer {
                descriptor: Descriptor::plain(MediaType::OciLayerGzip, digest, size),
                diff_id: content_digest(archive),
            };
            Ok(PackedLayer { layer, blob })
        },
    }
}

/// The layer of an archive.
pub fn pack_layer(archive: &[u8]) -> (result: Result<PackedLayer, String>)
    ensures
        outcome(result) == packed(archive@, gzipped(archive@)),
{
    pack_compressed(archive, gzip(archive))
}

/// A layer is stored under its digest: the descriptor names the digest and the size
/// of the blob itself, and the layer of a given archive is always the same.
pub proof fn layers_describe_their_blobs(archive: Seq<u8>)
    ensures
        packed(archive, gzipped(archive)) matches Ok((layer, blob)) ==> {
            &&& layer.descriptor.digest == digest_of(blob)
            &&& blob.len() <= u64::MAX ==> layer.descriptor.size == blob.len()
            &&& layer.diff_id == digest_of(archive)
        },
{
}

/// A layer goes by what it is: a compressed archive of the media type for one, with the
/// digest and the size of the compressed bytes, and known by the digest of the archive
/// itself. It comes about exactly where the compression succeeds.
pub proof fn layers_are_compressed_archives(
    archive: Seq<u8>,
    compressed: Result<Seq<u8>, (bool, Seq<char>)>,
)
    ensures
        packed(archive, compressed) is Ok <==> compressed is Ok,
        packed(archive, compressed) matches Ok((layer, blob)) ==> {
            &&& compressed == Ok::<Seq<u8>, (bool, Seq<char>)>(blob)
            &&& layer.descriptor.media_type == "application/vnd.oci.image.layer.v1.tar+gzip"@
            &&& layer.descriptor.digest == digest_of(blob)
            &&& blob.len() <= u64::MAX ==> layer.descriptor.size == blob.len()
            &&& layer.descriptor.urls is None
            &&& layer.descriptor.annotations is None
            &&& layer.diff_id == digest_of(archive)
        },
{
}

} // verus!
