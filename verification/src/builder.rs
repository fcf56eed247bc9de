//! Collecting the files to install for all generations before any is written: each target on
//! the ESP appears once, with the file it comes from and whether it is signed.
use vstd::prelude::*;

use crate::esp::{spec_esp_generation_paths, spec_generation_path, Architecture, EspError, EspGenerationPaths, EspPaths};
use crate::generation::Generation;
use crate::install::{assemble_kernel_cmdline, spec_kernel_cmdline};
use crate::os_release::{render, OsRelease};
use crate::strmap::StrMap;
use crate::text::strings_view;

verus! {

/// Where a file on the ESP comes from, and whether it is signed on the way.
#[derive(Debug, Clone, PartialEq, Eq)]
pub enum FileSource {
    SignedFile(String),
    UnsignedFile(String),
}

/// A source as plain values: its path and whether it is signed.
pub open spec fn source_view(s: FileSource) -> (Seq<char>, bool) {
    match s {
        FileSource::SignedFile(p) => (p@, true),
        FileSource::UnsignedFile(p) => (p@, false),
    }
}

impl FileSource {
    /// The path of the source file.
    pub fn path(&self) -> (r: &String)
        ensures
            r@ == source_view(*self).0,
    {
        match self {
            FileSource::SignedFile(p) | FileSource::UnsignedFile(p) => p,
        }
    }
}

/// The files to install for all generations, by target path on the ESP: each target once, so
/// that no generation overwrites a file another one's stub points to.
pub struct GenerationArtifacts {
    pub files: StrMap<FileSource>,
}

/// The artifacts as plain values: target path to source.
pub open spec fn artifacts_view(a: GenerationArtifacts) -> Map<Seq<char>, (Seq<char>, bool)> {
    a.files@.map_values(|s: FileSource| source_view(s))
}

impl GenerationArtifacts {
    /// No files yet.
    pub fn new() -> (r: Self)
        ensures
            r.files.wf(),
            artifacts_view(r) == Map::<Seq<char>, (Seq<char>, bool)>::empty(),
    {
        let r = GenerationArtifacts { files: StrMap::new() };
        assert(artifacts_view(r) =~= Map::<Seq<char>, (Seq<char>, bool)>::empty());
        r
    }

    /// Records a file to install; a source recorded before for the same target is replaced.
    fn add_file(&mut self, from: FileSource, to: &str)
        requires
            old(self).files.wf(),
        ensures
            final(self).files.wf(),
            artifacts_view(*final(self)) == artifacts_view(*old(self)).insert(to@, source_view(from)),
    {
        let ghost before = self.files@;
        self.files.insert(to.to_owned(), from);
        assert(artifacts_view(*self) =~= before.map_values(|s: FileSource| source_view(s)).insert(to@, source_view(from)));
    }

    /// Records a PE file to sign and install at `to`.
    pub fn add_signed(&mut self, from: &str, to: &str)
        requires
            old(self).files.wf(),
        ensures
            final(self).files.wf(),
            artifacts_view(*final(self)) == artifacts_view(*old(self)).insert(to@, (from@, true)),
    {
        self.add_file(FileSource::SignedFile(from.to_owned()), to);
    }

    /// Records a file to install unsigned at `to`.
    pub fn add_unsigned(&mut self, from: &str, to: &str)
        requires
            old(self).files.wf(),
        ensures
            final(self).files.wf(),
            artifacts_view(*final(self)) == artifacts_view(*old(self)).insert(to@, (from@, false)),
    {
        self.add_file(FileSource::UnsignedFile(from.to_owned()), to);
    }

    /// The source recorded for a target, if any.
    pub fn source(&self, to: &str) -> (r: Option<&FileSource>)
        requires
            self.files.wf(),
        ensures
            r matches Some(s) ==> artifacts_view(*self).dom().contains(to@) && artifacts_view(*self)[to@] == source_view(*s),
            r is None ==> !artifacts_view(*self).dom().contains(to@),
    {
        self.files.get(to)
    }
}

/// Why a generation's stub could not be built.
#[derive(Debug, Clone, Copy, PartialEq, Eq, Structural)]
pub enum BuildError {
    /// The ESP paths of the generation could not be computed.
    Esp(EspError),
    /// The kernel of the generation was not recorded in the artifacts.
    MissingKernel,
    /// The initrd of the generation was not recorded in the artifacts.
    MissingInitrd,
}

/// The builder of one generation's files.
pub struct Builder {
    pub lanzaboote_stub: String,
    pub generation: Generation,
    pub esp: String,
    pub esp_gen_paths: EspGenerationPaths,
}

/// What the stub of a generation is assembled from: the kernel command line, the os-release
/// text, and the sources of the kernel and the initrd.
pub struct SignedStubInputs {
    pub kernel_cmdline: Vec<String>,
    pub os_release: String,
    pub kernel: String,
    pub initrd: String,
}

impl Builder {
    /// The builder of a generation whose files go to the ESP laid out by `esp_paths`.
    pub fn from_existing_artifacts<P: EspPaths>(
        lanzaboote_stub: String,
        generation: Generation,
        esp: String,
        esp_paths: &P,
        system: Architecture,
        kernel_resolved: &str,
        initrd_resolved: Option<&str>,
    ) -> (r: Result<Self, BuildError>)
        requires
            Architecture::spec_from_nixos_system(generation.spec.bootspec.system@) matches Ok(a) ==> a == system,
        ensures
            match spec_esp_generation_paths(
                esp_paths.nixos_dir(),
                esp_paths.linux_dir(),
                generation,
                kernel_resolved@,
                match initrd_resolved {
                    Some(i) => Some(i@),
                    None => None,
                },
            ) {
                Ok((k, i, l)) => r matches Ok(b) && b.generation == generation && b.esp@ == esp@
                    && b.lanzaboote_stub@ == lanzaboote_stub@ && b.esp_gen_paths.kernel@ == k
                    && b.esp_gen_paths.initrd@ == i && b.esp_gen_paths.lanzaboote_image@ == l,
                Err(e) => r == Err::<Builder, BuildError>(BuildError::Esp(e)),
            },
            r matches Ok(b) ==> b.esp_gen_paths.lanzaboote_image@ == crate::paths::spec_join(
                esp_paths.linux_dir(),
                spec_generation_path(generation),
            ),
    {
        match EspGenerationPaths::new(esp_paths, &generation, system, kernel_resolved, initrd_resolved) {
            Err(e) => Err(BuildError::Esp(e)),
            Ok(esp_gen_paths) => Ok(Builder { lanzaboote_stub, generation, esp, esp_gen_paths }),
        }
    }

    /// Records the generation's kernel and initrd (at `initrd_location`, the copy that secrets
    /// were appended to), both unsigned: the stub carries their hashes and refuses others.
    pub fn build_unsigned(&self, artifacts: &mut GenerationArtifacts, initrd_location: &str)
        requires
            old(artifacts).files.wf(),
        ensures
            final(artifacts).files.wf(),
            artifacts_view(*final(artifacts)) == artifacts_view(*old(artifacts)).insert(
                self.esp_gen_paths.kernel@,
                (self.generation.spec.bootspec.kernel@, false),
            ).insert(self.esp_gen_paths.initrd@, (initrd_location@, false)),
    {
        artifacts.add_unsigned(self.generation.spec.bootspec.kernel.as_str(), self.esp_gen_paths.kernel.as_str());
        artifacts.add_unsigned(initrd_location, self.esp_gen_paths.initrd.as_str());
    }

    /// What the generation's stub is assembled from; the kernel and the initrd must have been
    /// recorded before.
    pub fn build_signed(&self, artifacts: &GenerationArtifacts) -> (r: Result<SignedStubInputs, BuildError>)
        requires
            artifacts.files.wf(),
            self.generation.wf(),
        ensures
            !artifacts_view(*artifacts).dom().contains(self.esp_gen_paths.kernel@) ==> r == Err::<SignedStubInputs, BuildError>(BuildError::MissingKernel),
            artifacts_view(*artifacts).dom().contains(self.esp_gen_paths.kernel@)
                && !artifacts_view(*artifacts).dom().contains(self.esp_gen_paths.initrd@)
                ==> r == Err::<SignedStubInputs, BuildError>(BuildError::MissingInitrd),
            r is Ok <==> (artifacts_view(*artifacts).dom().contains(self.esp_gen_paths.kernel@)
                && artifacts_view(*artifacts).dom().contains(self.esp_gen_paths.initrd@)),
            r matches Ok(i) ==> {
                &&& artifacts_view(*artifacts).dom().contains(self.esp_gen_paths.kernel@)
                &&& artifacts_view(*artifacts).dom().contains(self.esp_gen_paths.initrd@)
                &&& i.kernel@ == artifacts_view(*artifacts)[self.esp_gen_paths.kernel@].0
                &&& i.initrd@ == artifacts_view(*artifacts)[self.esp_gen_paths.initrd@].0
                &&& strings_view(i.kernel_cmdline@) == spec_kernel_cmdline(
                    self.generation.spec.bootspec.init@,
                    strings_view(self.generation.spec.bootspec.kernel_params@),
                )
                &&& exists|o: OsRelease| o.wf() && #[trigger] render(o.lines()) == i.os_release@
                    && o@ == crate::os_release::generation_os_release(self.generation)
            },
    {
        let os_release = OsRelease::from_generation(&self.generation).unwrap();
        let text = os_release.to_string();
        let kernel = match artifacts.source(self.esp_gen_paths.kernel.as_str()) {
            Some(s) => s.path().clone(),
            None => return Err(BuildError::MissingKernel),
        };
        let initrd = match artifacts.source(self.esp_gen_paths.initrd.as_str()) {
            Some(s) => s.path().clone(),
            None => return Err(BuildError::MissingInitrd),
        };
        let params = crate::pe::strings_to_vec(self.generation.spec.bootspec.kernel_params.as_slice());
        let kernel_cmdline = assemble_kernel_cmdline(self.generation.spec.bootspec.init.as_str(), params);
        Ok(SignedStubInputs { kernel_cmdline, os_release: text, kernel, initrd })
    }

    /// Records the signed stub, assembled at `image`, for the generation's stub path.
    pub fn add_stub(&self, artifacts: &mut GenerationArtifacts, image: &str)
        requires
            old(artifacts).files.wf(),
        ensures
            final(artifacts).files.wf(),
            artifacts_view(*final(artifacts)) == artifacts_view(*old(artifacts)).insert(
                self.esp_gen_paths.lanzaboote_image@,
                (image@, true),
            ),
    {
        artifacts.add_signed(image, self.esp_gen_paths.lanzaboote_image.as_str());
    }
}

} // verus!
