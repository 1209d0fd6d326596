use vstd::prelude::*;
use crate::bytes::{append_bytes, copy_bytes};
use crate::errors::ApkError;
use crate::visitor::{
    visit_artifacts_spec, visit_files, visit_ok, visit_spec, Artifact, ArtifactModel,
};

verus! {

/// The byte length of the structural install-root prefix that every inner
/// payload path carries ("./" followed by the archive producer's canonical
/// install root). Stripping this many leading bytes turns a payload path
/// into the relative path the manifests record.
pub const DEFAULT_STRIP_LEN: usize = 33;

/// The fixed target CPU architectures; each selects a repository index and
/// names one output subdirectory.
#[derive(Clone, Copy, Debug, PartialEq, Eq, Structural)]
pub enum Arch {
    Arm,
    Aarch64,
    I686,
    X8664,
}

/// The repository's name for an architecture: "arm", "aarch64", "i686",
/// "x86_64".
pub open spec fn arch_name_spec(a: Arch) -> Seq<u8> {
    match a {
        Arch::Arm => seq![0x61u8, 0x72u8, 0x6du8],
        Arch::Aarch64 => seq![0x61u8, 0x61u8, 0x72u8, 0x63u8, 0x68u8, 0x36u8, 0x34u8],
        Arch::I686 => seq![0x69u8, 0x36u8, 0x38u8, 0x36u8],
        Arch::X8664 => seq![0x78u8, 0x38u8, 0x36u8, 0x5fu8, 0x36u8, 0x34u8],
    }
}

/// The application ABI directory name for an architecture: "armeabi-v7a",
/// "arm64-v8a", "x86", "x86_64".
pub open spec fn abi_name_spec(a: Arch) -> Seq<u8> {
    match a {
        Arch::Arm => seq![
            0x61u8,
            0x72u8,
            0x6du8,
            0x65u8,
            0x61u8,
            0x62u8,
            0x69u8,
            0x2du8,
            0x76u8,
            0x37u8,
            0x61u8,
        ],
        Arch::Aarch64 => seq![
            0x61u8,
            0x72u8,
            0x6du8,
            0x36u8,
            0x34u8,
            0x2du8,
            0x76u8,
            0x38u8,
            0x61u8,
        ],
        Arch::I686 => seq![0x78u8, 0x38u8, 0x36u8],
        Arch::X8664 => seq![0x78u8, 0x38u8, 0x36u8, 0x5fu8, 0x36u8, 0x34u8],
    }
}

/// The repository's name for an architecture.
pub fn arch_name(a: Arch) -> (r: Vec<u8>)
    ensures
        r@ == arch_name_spec(a),
{
    let mut v: Vec<u8> = Vec::new();
    match a {
        Arch::Arm => {
            v.push(0x61);
            v.push(0x72);
            v.push(0x6d);
        },
        Arch::Aarch64 => {
            v.push(0x61);
            v.push(0x61);
            v.push(0x72);
            v.push(0x63);
            v.push(0x68);
            v.push(0x36);
            v.push(0x34);
        },
        Arch::I686 => {
            v.push(0x69);
            v.push(0x36);
            v.push(0x38);
            v.push(0x36);
        },
        Arch::X8664 => {
            v.push(0x78);
            v.push(0x38);
            v.push(0x36);
            v.push(0x5f);
            v.push(0x36);
            v.push(0x34);
        },
    }
    proof {
        assert(v@ =~= arch_name_spec(a));
    }
    v
}

/// The application ABI directory name for an architecture.
pub fn abi_name(a: Arch) -> (r: Vec<u8>)
    ensures
        r@ == abi_name_spec(a),
{
    let mut v: Vec<u8> = Vec::new();
    match a {
        Arch::Arm => {
            v.push(0x61);
            v.push(0x72);
            v.push(0x6d);
            v.push(0x65);
            v.push(0x61);
            v.push(0x62);
            v.push(0x69);
            v.push(0x2d);
            v.push(0x76);
            v.push(0x37);
            v.push(0x61);
        },
        Arch::Aarch64 => {
            v.push(0x61);
            v.push(0x72);
            v.push(0x6d);
            v.push(0x36);
            v.push(0x34);
            v.push(0x2d);
            v.push(0x76);
            v.push(0x38);
            v.push(0x61);
        },
        Arch::I686 => {
            v.push(0x78);
            v.push(0x38);
            v.push(0x36);
        },
        Arch::X8664 => {
            v.push(0x78);
            v.push(0x38);
            v.push(0x36);
            v.push(0x5f);
            v.push(0x36);
            v.push(0x34);
        },
    }
    proof {
        assert(v@ =~= abi_name_spec(a));
    }
    v
}

/// Every target architecture, in the order its job is launched.
pub fn all_architectures() -> (r: Vec<Arch>)
    ensures
        r@ == seq![Arch::Arm, Arch::Aarch64, Arch::I686, Arch::X8664],
{
    let mut v: Vec<Arch> = Vec::new();
    v.push(Arch::Arm);
    v.push(Arch::Aarch64);
    v.push(Arch::I686);
    v.push(Arch::X8664);
    proof {
        assert(v@ =~= seq![Arch::Arm, Arch::Aarch64, Arch::I686, Arch::X8664]);
    }
    v
}

/// The path fragment between the output root and an ABI directory,
/// "/app/src/main/jniLibs/".
pub open spec fn jni_libs_rep() -> Seq<u8> {
    seq![
        0x2fu8,
        0x61u8,
        0x70u8,
        0x70u8,
        0x2fu8,
        0x73u8,
        0x72u8,
        0x63u8,
        0x2fu8,
        0x6du8,
        0x61u8,
        0x69u8,
        0x6eu8,
        0x2fu8,
        0x6au8,
        0x6eu8,
        0x69u8,
        0x4cu8,
        0x69u8,
        0x62u8,
        0x73u8,
        0x2fu8,
    ]
}

/// One architecture's output directory below the output root.
pub open spec fn jni_dir_spec(output_root: Seq<u8>, a: Arch) -> Seq<u8> {
    output_root + jni_libs_rep() + abi_name_spec(a)
}

/// One architecture's output directory below the output root:
/// "<output root>/app/src/main/jniLibs/<abi>".
pub fn jni_libs_dir(output_root: &Vec<u8>, a: Arch) -> (r: Vec<u8>)
    ensures
        r@ == jni_dir_spec(output_root@, a),
{
    let mut v: Vec<u8> = Vec::new();
    append_bytes(&mut v, output_root);
    v.push(0x2f);
    v.push(0x61);
    v.push(0x70);
    v.push(0x70);
    v.push(0x2f);
    v.push(0x73);
    v.push(0x72);
    v.push(0x63);
    v.push(0x2f);
    v.push(0x6d);
    v.push(0x61);
    v.push(0x69);
    v.push(0x6e);
    v.push(0x2f);
    v.push(0x6a);
    v.push(0x6e);
    v.push(0x69);
    v.push(0x4c);
    v.push(0x69);
    v.push(0x62);
    v.push(0x73);
    v.push(0x2f);
    let name = abi_name(a);
    append_bytes(&mut v, &name);
    proof {
        assert(v@ =~= jni_dir_spec(output_root@, a));
    }
    v
}

/// The file name of the mapping manifest below an ABI directory,
/// "/files.so".
pub open spec fn files_so_rep() -> Seq<u8> {
    seq![0x2fu8, 0x66u8, 0x69u8, 0x6cu8, 0x65u8, 0x73u8, 0x2eu8, 0x73u8, 0x6fu8]
}

/// The file name of the symlink manifest below an ABI directory,
/// "/symlinks.so".
pub open spec fn symlinks_so_rep() -> Seq<u8> {
    seq![
        0x2fu8,
        0x73u8,
        0x79u8,
        0x6du8,
        0x6cu8,
        0x69u8,
        0x6eu8,
        0x6bu8,
        0x73u8,
        0x2eu8,
        0x73u8,
        0x6fu8,
    ]
}

/// The non-destructive guard over the output root: a root that already
/// exists is exactly the `OutputExistsError` case, and no work may follow;
/// a fresh root is accepted.
pub fn check_output_root(exists: bool) -> (r: Result<(), ApkError>)
    ensures
        exists ==> r == Err::<(), ApkError>(ApkError::OutputExistsError),
        !exists ==> r == Ok::<(), ApkError>(()),
{
    if exists {
        Err(ApkError::OutputExistsError)
    } else {
        Ok(())
    }
}

/// The scheduler's overall result: success exactly when every
/// architecture's job succeeded.
pub fn overall_success(job_succeeded: &Vec<bool>) -> (r: bool)
    ensures
        r <==> (forall|i: int| 0 <= i < job_succeeded@.len() ==> job_succeeded@[i]),
{
    let mut i: usize = 0;
    while i < job_succeeded.len()
        invariant
            i <= job_succeeded@.len(),
            forall|k: int| 0 <= k < i ==> job_succeeded@[k],
        decreases job_succeeded@.len() - i,
    {
        if !job_succeeded[i] {
            return false;
        }
        i = i + 1;
    }
    true
}

/// The writes one architecture's job performs when its archive visits
/// cleanly: every numbered artifact below the architecture's output
/// directory, then "files.so" holding the mapping manifest and
/// "symlinks.so" holding the symlink manifest.
pub open spec fn plan_writes_spec(archive: Seq<u8>, strip: nat, dir: Seq<u8>) -> Seq<
    ArtifactModel,
> {
    match visit_spec(archive, strip, dir) {
        Option::None => Seq::empty(),
        Option::Some(ms) => visit_artifacts_spec(archive, strip, dir) + seq![
            ArtifactModel { path: dir + files_so_rep(), content: ms.0 },
            ArtifactModel { path: dir + symlinks_so_rep(), content: ms.1 },
        ],
    }
}

/// One architecture's extraction, ready to be persisted: the output
/// directory to create, and the files to write, in order.
pub struct ExtractionPlan {
    pub directory: Vec<u8>,
    pub writes: Vec<Artifact>,
}

/// Computes one architecture's extraction from its downloaded archive: the
/// numbered artifacts and both manifests, all placed below the
/// architecture's own output directory. Succeeds exactly when the archive
/// visits cleanly; any failure is `ArchiveFormatError` and plans no write
/// at all.
pub fn extract_for_architecture(
    archive: &Vec<u8>,
    output_root: &Vec<u8>,
    arch: Arch,
    strip_len: usize,
) -> (r: Result<ExtractionPlan, ApkError>)
    ensures
        r matches Ok(p) ==> {
            &&& p.directory@ == jni_dir_spec(output_root@, arch)
            &&& visit_spec(archive@, strip_len as nat, jni_dir_spec(output_root@, arch)) is Some
            &&& p.writes@.map_values(|a: Artifact| a@) == plan_writes_spec(
                archive@,
                strip_len as nat,
                jni_dir_spec(output_root@, arch),
            )
        },
        r is Ok <==> visit_ok(archive@, strip_len as nat),
        r matches Err(e) ==> e == ApkError::ArchiveFormatError,
        visit_spec(archive@, strip_len as nat, jni_dir_spec(output_root@, arch)) is None
            ==> r is Err,
{
    let directory = jni_libs_dir(output_root, arch);
    let dir_copy = copy_bytes(&directory);
    let out = match visit_files(archive, strip_len, dir_copy) {
        Ok(o) => o,
        Err(_) => {
            return Err(ApkError::ArchiveFormatError);
        },
    };
    let mut writes = out.artifacts;
    let mut files_path = copy_bytes(&directory);
    files_path.push(0x2f);
    files_path.push(0x66);
    files_path.push(0x69);
    files_path.push(0x6c);
    files_path.push(0x65);
    files_path.push(0x73);
    files_path.push(0x2e);
    files_path.push(0x73);
    files_path.push(0x6f);
    proof {
        assert(files_path@ =~= jni_dir_spec(output_root@, arch) + files_so_rep());
    }
    let mut symlinks_path = copy_bytes(&directory);
    symlinks_path.push(0x2f);
    symlinks_path.push(0x73);
    symlinks_path.push(0x79);
    symlinks_path.push(0x6d);
    symlinks_path.push(0x6c);
    symlinks_path.push(0x69);
    symlinks_path.push(0x6e);
    symlinks_path.push(0x6b);
    symlinks_path.push(0x73);
    symlinks_path.push(0x2e);
    symlinks_path.push(0x73);
    symlinks_path.push(0x6f);
    proof {
        assert(symlinks_path@ =~= jni_dir_spec(output_root@, arch) + symlinks_so_rep());
    }
    writes.push(Artifact { path: files_path, content: out.mapping_manifest });
    writes.push(Artifact { path: symlinks_path, content: out.symlink_manifest });
    proof {
        assert(writes@.map_values(|a: Artifact| a@) =~~= plan_writes_spec(
            archive@,
            strip_len as nat,
            jni_dir_spec(output_root@, arch),
        ));
    }
    Ok(ExtractionPlan { directory, writes })
}

/// The label of the architecture-independent index, "all".
pub open spec fn all_label_rep() -> Seq<u8> {
    seq![0x61u8, 0x6cu8, 0x6cu8]
}

/// The label of the architecture-independent index.
pub fn all_label() -> (r: Vec<u8>)
    ensures
        r@ == all_label_rep(),
{
    let mut v: Vec<u8> = Vec::new();
    v.push(0x61);
    v.push(0x6c);
    v.push(0x6c);
    proof {
        assert(v@ =~= all_label_rep());
    }
    v
}

/// The path fragment before an index label, "/dists/stable/main/binary-".
pub open spec fn index_infix_rep() -> Seq<u8> {
    seq![
        0x2fu8,
        0x64u8,
        0x69u8,
        0x73u8,
        0x74u8,
        0x73u8,
        0x2fu8,
        0x73u8,
        0x74u8,
        0x61u8,
        0x62u8,
        0x6cu8,
        0x65u8,
        0x2fu8,
        0x6du8,
        0x61u8,
        0x69u8,
        0x6eu8,
        0x2fu8,
        0x62u8,
        0x69u8,
        0x6eu8,
        0x61u8,
        0x72u8,
        0x79u8,
        0x2du8,
    ]
}

/// The path fragment after an index label, "/Packages".
pub open spec fn index_suffix_rep() -> Seq<u8> {
    seq![0x2fu8, 0x50u8, 0x61u8, 0x63u8, 0x6bu8, 0x61u8, 0x67u8, 0x65u8, 0x73u8]
}

/// The URL of one index: "<repo base>/dists/stable/main/binary-<label>/Packages".
pub open spec fn index_url_spec(repo_base: Seq<u8>, label: Seq<u8>) -> Seq<u8> {
    repo_base + index_infix_rep() + label + index_suffix_rep()
}

/// The retrieval URL of the index named `label` under `repo_base`.
pub fn index_url(repo_base: &Vec<u8>, label: &Vec<u8>) -> (r: Vec<u8>)
    ensures
        r@ == index_url_spec(repo_base@, label@),
{
    let mut v: Vec<u8> = Vec::new();
    append_bytes(&mut v, repo_base);
    v.push(0x2f);
    v.push(0x64);
    v.push(0x69);
    v.push(0x73);
    v.push(0x74);
    v.push(0x73);
    v.push(0x2f);
    v.push(0x73);
    v.push(0x74);
    v.push(0x61);
    v.push(0x62);
    v.push(0x6c);
    v.push(0x65);
    v.push(0x2f);
    v.push(0x6d);
    v.push(0x61);
    v.push(0x69);
    v.push(0x6e);
    v.push(0x2f);
    v.push(0x62);
    v.push(0x69);
    v.push(0x6e);
    v.push(0x61);
    v.push(0x72);
    v.push(0x79);
    v.push(0x2d);
    append_bytes(&mut v, label);
    v.push(0x2f);
    v.push(0x50);
    v.push(0x61);
    v.push(0x63);
    v.push(0x6b);
    v.push(0x61);
    v.push(0x67);
    v.push(0x65);
    v.push(0x73);
    proof {
        assert(v@ =~= index_url_spec(repo_base@, label@));
    }
    v
}


} // verus!
