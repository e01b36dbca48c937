//! The entry point of compression: checks a request against its kind before
//! any output exists, and hands back the plan of the driver that serves it.

use vstd::prelude::*;
use crate::engine::{file_name_or_empty, name_or_empty, plan_tar, tar_plan, ArchiveError, TarAction, TarActionView, TarCodec};
use crate::kind::{multi_entry, CompressionType};
use crate::path::{file_name_of, opt_str_view, FsPath};
use crate::size::{inputs_size, InputNode};
use crate::zipplan::{plan_zip, zip_plan, zip_views, ZipAction};

verus! {

/// What a driver is to do for one compression request.
#[derive(Debug)]
pub enum CompressPlan {
    /// Write a zip archive step by step.
    Zip(Vec<ZipAction>),
    /// Write a tar archive step by step, through a codec.
    Tar { codec: TarCodec, actions: Vec<TarAction> },
    /// Stream one file through a single-stream compressor, counting the
    /// compressed bytes against the file's size.
    Stream {
        kind: CompressionType,
        source: FsPath,
        /// The name that progress is reported under.
        name: String,
        /// The name stored in a gzip header, when the file has one.
        header_name: Option<String>,
        total: u64,
    },
}

/// The views of a list of tar steps.
pub open spec fn tar_views(v: Seq<TarAction>) -> Seq<TarActionView> {
    v.map_values(|a: TarAction| a@)
}

/// The plan for compressing `inputs` as `kind`. A single-stream kind refuses
/// more than one input before anything is read or written.
pub fn plan_compress(inputs: &Vec<InputNode>, kind: CompressionType) -> (r: Result<
    CompressPlan,
    ArchiveError,
>)
    requires
        inputs@.len() <= u64::MAX,
    ensures
        !multi_entry(kind) && inputs@.len() > 1 ==> r matches Err(ArchiveError::UnsupportedMultiInput),
        r matches Err(ArchiveError::UnsupportedMultiInput) ==> !multi_entry(kind) && inputs@.len() > 1,
        kind is Zip ==> match r {
            Ok(CompressPlan::Zip(p)) => zip_views(p@) == zip_plan(inputs@),
            Err(e) => e is SizeOverflow && inputs_size(inputs@) > u64::MAX,
            _ => false,
        },
        kind is TarGz || kind is TarBr ==> match r {
            Ok(CompressPlan::Tar { codec, actions }) => tar_views(actions@) == tar_plan(inputs@)
                && codec == (if kind is TarGz {
                TarCodec::Gzip
            } else {
                TarCodec::Brotli
            }),
            Err(e) => e is SizeOverflow && inputs_size(inputs@) > u64::MAX,
            _ => false,
        },
        !multi_entry(kind) && inputs@.len() <= 1 ==> match r {
            Ok(CompressPlan::Stream { kind: k, source, name, header_name, total }) => {
                &&& inputs@.len() == 1
                &&& inputs@[0] matches InputNode::File { path, size } && source@ == path@
                    && total == size && name@ == name_or_empty(path@) && opt_str_view(header_name)
                    == file_name_of(path@)
                &&& k == kind
            },
            Err(e) => (e is NoInput && inputs@.len() == 0) || (e is NotAFile && inputs@.len() == 1
                && !(inputs@[0] is File)),
            _ => false,
        },
{
    if !kind.admits_file_count(inputs.len()) {
        return Err(ArchiveError::UnsupportedMultiInput);
    }
    match kind {
        CompressionType::Zip => match plan_zip(inputs) {
            Ok(p) => Ok(CompressPlan::Zip(p)),
            Err(e) => Err(e),
        },
        CompressionType::TarGz => match plan_tar(inputs) {
            Ok(p) => Ok(CompressPlan::Tar { codec: TarCodec::Gzip, actions: p }),
            Err(e) => Err(e),
        },
        CompressionType::TarBr => match plan_tar(inputs) {
            Ok(p) => Ok(CompressPlan::Tar { codec: TarCodec::Brotli, actions: p }),
            Err(e) => Err(e),
        },
        _ => {
            if inputs.len() == 0 {
                return Err(ArchiveError::NoInput);
            }
            match &inputs[0] {
                InputNode::File { path, size } => Ok(
                    CompressPlan::Stream {
                        kind,
                        source: path.copy(),
                        name: file_name_or_empty(path),
                        header_name: path.file_name(),
                        total: *size,
                    },
                ),
                _ => Err(ArchiveError::NotAFile),
            }
        },
    }
}

} // verus!
