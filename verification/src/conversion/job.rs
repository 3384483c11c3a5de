//! What is known of a conversion.

use vstd::prelude::*;

use crate::cli::{ConvertModel, ConvertOptions};
use crate::control::metadata::{DebianMetadata, MetadataModel};
use crate::conversion::package::{ArchPackageMetadata, PackageModel};
use crate::conversion::relations::{RelationsModel, ResolvedRelations};

verus! {

/// The Debian package and where the output goes.
#[derive(Debug, Clone, PartialEq, Eq)]
pub struct Source {
    pub options: ConvertOptions,
    pub input: Vec<u8>,
    pub output_dir: Vec<u8>,
}

/// The mathematical value of a [`Source`].
pub struct SourceModel {
    pub options: ConvertModel,
    pub input: Seq<u8>,
    pub output_dir: Seq<u8>,
}

impl DeepView for Source {
    type V = SourceModel;

    open spec fn deep_view(&self) -> SourceModel {
        SourceModel {
            options: self.options.deep_view(),
            input: self.input@,
            output_dir: self.output_dir@,
        }
    }
}

/// A Debian package whose metadata is known.
#[derive(Debug, Clone, PartialEq, Eq)]
pub struct DebianJob {
    pub source: Source,
    /// The name of the data archive.
    pub data_member: Vec<u8>,
    pub debian: DebianMetadata,
    pub warnings: Vec<String>,
}

/// The mathematical value of a [`DebianJob`].
pub struct DebianJobModel {
    pub source: SourceModel,
    pub data_member: Seq<u8>,
    pub debian: MetadataModel,
    pub warnings: Seq<Seq<char>>,
}

impl DeepView for DebianJob {
    type V = DebianJobModel;

    open spec fn deep_view(&self) -> DebianJobModel {
        DebianJobModel {
            source: self.source.deep_view(),
            data_member: self.data_member@,
            debian: self.debian.deep_view(),
            warnings: self.warnings.deep_view(),
        }
    }
}

/// A Debian package whose relations are resolved.
#[derive(Debug, Clone, PartialEq, Eq)]
pub struct PayloadJob {
    pub job: DebianJob,
    pub relations: ResolvedRelations,
}

/// The mathematical value of a [`PayloadJob`].
pub struct PayloadJobModel {
    pub job: DebianJobModel,
    pub relations: RelationsModel,
}

impl DeepView for PayloadJob {
    type V = PayloadJobModel;

    open spec fn deep_view(&self) -> PayloadJobModel {
        PayloadJobModel { job: self.job.deep_view(), relations: self.relations.deep_view() }
    }
}

/// A Debian package whose payload has the layout of an Arch package.
#[derive(Debug, Clone, PartialEq, Eq)]
pub struct ContentJob {
    pub payload: PayloadJob,
    pub installed_size: u64,
    pub backups: Vec<String>,
}

/// The mathematical value of a [`ContentJob`].
pub struct ContentJobModel {
    pub payload: PayloadJobModel,
    pub installed_size: u64,
    pub backups: Seq<Seq<char>>,
}

impl DeepView for ContentJob {
    type V = ContentJobModel;

    open spec fn deep_view(&self) -> ContentJobModel {
        ContentJobModel {
            payload: self.payload.deep_view(),
            installed_size: self.installed_size,
            backups: self.backups.deep_view(),
        }
    }
}

/// An Arch package that is to be written.
#[derive(Debug, Clone, PartialEq, Eq)]
pub struct BuildJob {
    pub source: Source,
    pub data_member: Vec<u8>,
    pub warnings: Vec<String>,
    pub metadata: ArchPackageMetadata,
    /// The text of the install script.
    pub install: Option<String>,
    /// The path of the package.
    pub package: Vec<u8>,
}

/// The mathematical value of a [`BuildJob`].
pub struct BuildJobModel {
    pub source: SourceModel,
    pub data_member: Seq<u8>,
    pub warnings: Seq<Seq<char>>,
    pub metadata: PackageModel,
    pub install: Option<Seq<char>>,
    pub package: Seq<u8>,
}

impl DeepView for BuildJob {
    type V = BuildJobModel;

    open spec fn deep_view(&self) -> BuildJobModel {
        BuildJobModel {
            source: self.source.deep_view(),
            data_member: self.data_member@,
            warnings: self.warnings.deep_view(),
            metadata: self.metadata.deep_view(),
            install: self.install.deep_view(),
            package: self.package@,
        }
    }
}

} // verus!
