use vstd::prelude::*;
use crate::archive::{
    classify, gunzip, gunzip_of, gunzip_ok, kind_of, read_tar_entries, tar_entries_of, tar_ok,
    EntryKind, EntryModel, RawEntry,
};
use crate::bytes::{
    append_bytes, copy_bytes, dec_rep, has_prefix, has_suffix, push_decimal, subrange_vec,
};
use crate::errors::ApkError;

verus! {

/// The separator of a manifest line, U+2190 in UTF-8.
pub open spec fn arrow() -> Seq<u8> {
    seq![0xe2u8, 0x86u8, 0x90u8]
}

/// The extension given to every extracted artifact, ".so".
pub open spec fn so_suffix() -> Seq<u8> {
    seq![0x2eu8, 0x73u8, 0x6fu8]
}

/// An entry's path relative to the structural install-root prefix.
pub open spec fn rel_of(path: Seq<u8>, strip: nat) -> Seq<u8> {
    path.skip(strip as int)
}

/// The file name of the artifact numbered `counter`: "<counter>.so".
pub open spec fn artifact_file_name(counter: nat) -> Seq<u8> {
    dec_rep(counter) + so_suffix()
}

/// One mapping-manifest line: "<counter>.so<ARROW><relative path>".
pub open spec fn mapping_line(counter: nat, rel: Seq<u8>) -> Seq<u8> {
    artifact_file_name(counter) + arrow() + rel
}

/// One symlink-manifest line: "<link target><ARROW><relative path>".
pub open spec fn symlink_line(link: Seq<u8>, rel: Seq<u8>) -> Seq<u8> {
    link + arrow() + rel
}

/// The full path of the artifact numbered `counter` below `dir`.
pub open spec fn artifact_path(dir: Seq<u8>, counter: nat) -> Seq<u8> {
    dir + seq![0x2fu8] + artifact_file_name(counter)
}

/// Ghost model of the extraction state of one architecture.
pub struct VisitorModel {
    pub out_dir: Seq<u8>,
    pub counter: nat,
    pub mapping: Seq<Seq<u8>>,
    pub symlinks: Seq<Seq<u8>>,
}

/// The state at the start of one architecture's extraction.
pub open spec fn init_model(out_dir: Seq<u8>) -> VisitorModel {
    VisitorModel { out_dir, counter: 0, mapping: Seq::empty(), symlinks: Seq::empty() }
}

/// Ghost model of one file to be written.
pub struct ArtifactModel {
    pub path: Seq<u8>,
    pub content: Seq<u8>,
}

/// One extracted regular file: where it is to be written, and its bytes.
pub struct Artifact {
    pub path: Vec<u8>,
    pub content: Vec<u8>,
}

impl View for Artifact {
    type V = ArtifactModel;

    open spec fn view(&self) -> ArtifactModel {
        ArtifactModel { path: self.path@, content: self.content@ }
    }
}

/// Whether one entry can be processed: entries of irrelevant kind are
/// always skippable; a regular file or symlink must carry a path at least
/// as long as the strip prefix.
pub open spec fn step_ok(e: EntryModel, strip: nat) -> bool {
    kind_of(e.typeflag) == EntryKind::Other || e.path.len() >= strip
}

/// How one entry advances the extraction state: a regular file appends one
/// mapping line and takes the next artifact number, a symlink appends one
/// symlink line, anything else changes nothing.
pub open spec fn step(m: VisitorModel, e: EntryModel, strip: nat) -> VisitorModel {
    match kind_of(e.typeflag) {
        EntryKind::Regular => VisitorModel {
            counter: m.counter + 1,
            mapping: m.mapping.push(mapping_line(m.counter, rel_of(e.path, strip))),
            ..m
        },
        EntryKind::Symlink => VisitorModel {
            symlinks: m.symlinks.push(symlink_line(e.link, rel_of(e.path, strip))),
            ..m
        },
        EntryKind::Other => m,
    }
}

/// The file written for one entry: a regular file yields its numbered
/// artifact, other entries yield nothing.
pub open spec fn step_artifacts(m: VisitorModel, e: EntryModel, strip: nat) -> Seq<ArtifactModel> {
    if kind_of(e.typeflag) == EntryKind::Regular {
        seq![ArtifactModel { path: artifact_path(m.out_dir, m.counter), content: e.content }]
    } else {
        Seq::empty()
    }
}

/// The extraction state after all of `es`, in stream order.
pub open spec fn run(m: VisitorModel, es: Seq<EntryModel>, strip: nat) -> VisitorModel
    decreases es.len(),
{
    if es.len() == 0 {
        m
    } else {
        run(step(m, es[0], strip), es.drop_first(), strip)
    }
}

/// The files written for all of `es`, in stream order.
pub open spec fn run_artifacts(m: VisitorModel, es: Seq<EntryModel>, strip: nat) -> Seq<
    ArtifactModel,
>
    decreases es.len(),
{
    if es.len() == 0 {
        Seq::empty()
    } else {
        step_artifacts(m, es[0], strip) + run_artifacts(step(m, es[0], strip), es.drop_first(), strip)
    }
}

/// The per-architecture extraction state: the output directory, the next
/// artifact number, and the two manifests as ordered lists of lines.
pub struct CreateApkVisitor {
    output_directory: Vec<u8>,
    counter: usize,
    mapping_lines: Vec<Vec<u8>>,
    symlink_lines: Vec<Vec<u8>>,
}

impl View for CreateApkVisitor {
    type V = VisitorModel;

    closed spec fn view(&self) -> VisitorModel {
        VisitorModel {
            out_dir: self.output_directory@,
            counter: self.counter as nat,
            mapping: self.mapping_lines.deep_view(),
            symlinks: self.symlink_lines.deep_view(),
        }
    }
}

impl CreateApkVisitor {
    /// A fresh state for one architecture: artifact numbering starts at 0,
    /// both manifests are empty.
    pub fn new(output_directory: Vec<u8>) -> (r: CreateApkVisitor)
        ensures
            r@ == init_model(output_directory@),
    {
        let r = CreateApkVisitor {
            output_directory,
            counter: 0,
            mapping_lines: Vec::new(),
            symlink_lines: Vec::new(),
        };
        proof {
            assert(r.mapping_lines.deep_view() =~= Seq::<Seq<u8>>::empty());
            assert(r.symlink_lines.deep_view() =~= Seq::<Seq<u8>>::empty());
        }
        r
    }

    /// Processes one payload entry: classifies it from its metadata alone,
    /// skips irrelevant kinds silently, records one manifest line for a
    /// regular file or a symlink, and returns the numbered artifact to be
    /// written for a regular file. A regular or symlink entry whose path is
    /// shorter than the strip prefix is a format error and changes nothing.
    pub fn visit_file(&mut self, entry: &RawEntry, strip_len: usize) -> (r: Result<
        Option<Artifact>,
        ApkError,
    >)
        requires
            old(self)@.counter < usize::MAX,
        ensures
            step_ok(entry@, strip_len as nat) ==> {
                &&& final(self)@ == step(old(self)@, entry@, strip_len as nat)
                &&& r matches Ok(a) && (match a {
                    Option::Some(art) => art@.path == artifact_path(
                        old(self)@.out_dir,
                        old(self)@.counter,
                    ) && art@.content == entry@.content && kind_of(entry@.typeflag)
                        == EntryKind::Regular,
                    Option::None => kind_of(entry@.typeflag) != EntryKind::Regular,
                })
            },
            !step_ok(entry@, strip_len as nat) ==> final(self)@ == old(self)@ && r == Err::<
                Option<Artifact>,
                ApkError,
            >(ApkError::ArchiveFormatError),
    {
        let kind = classify(entry.typeflag);
        if matches!(kind, EntryKind::Other) {
            return Ok(Option::None);
        }
        if entry.path.len() < strip_len {
            return Err(ApkError::ArchiveFormatError);
        }
        let rel = subrange_vec(&entry.path, strip_len, entry.path.len());
        proof {
            assert(rel@ =~= rel_of(entry@.path, strip_len as nat));
        }
        if matches!(kind, EntryKind::Symlink) {
            let mut line = copy_bytes(&entry.link);
            line.push(0xe2);
            line.push(0x86);
            line.push(0x90);
            append_bytes(&mut line, &rel);
            proof {
                assert(line@ =~= symlink_line(entry@.link, rel_of(entry@.path, strip_len as nat)));
            }
            self.symlink_lines.push(line);
            proof {
                assert(self@.symlinks =~~= old(self)@.symlinks.push(
                    symlink_line(entry@.link, rel_of(entry@.path, strip_len as nat)),
                ));
                assert(self@.mapping =~~= old(self)@.mapping);
                assert(self@ == step(old(self)@, entry@, strip_len as nat));
            }
            Ok(Option::None)
        } else {
            let mut name: Vec<u8> = Vec::new();
            push_decimal(&mut name, self.counter);
            name.push(0x2e);
            name.push(0x73);
            name.push(0x6f);
            proof {
                assert(name@ =~= artifact_file_name(old(self)@.counter));
            }
            let mut line = copy_bytes(&name);
            line.push(0xe2);
            line.push(0x86);
            line.push(0x90);
            append_bytes(&mut line, &rel);
            proof {
                assert(line@ =~= mapping_line(
                    old(self)@.counter,
                    rel_of(entry@.path, strip_len as nat),
                ));
            }
            let mut path = copy_bytes(&self.output_directory);
            path.push(0x2f);
            append_bytes(&mut path, &name);
            proof {
                assert(path@ =~= artifact_path(old(self)@.out_dir, old(self)@.counter));
            }
            self.mapping_lines.push(line);
            self.counter = self.counter + 1;
            proof {
                assert(self@.mapping =~~= old(self)@.mapping.push(
                    mapping_line(old(self)@.counter, rel_of(entry@.path, strip_len as nat)),
                ));
                assert(self@.symlinks =~~= old(self)@.symlinks);
                assert(self@ == step(old(self)@, entry@, strip_len as nat));
            }
            Ok(Option::Some(Artifact { path, content: copy_bytes(&entry.content) }))
        }
    }
}

/// Whether every entry of `es` can be processed.
pub open spec fn all_ok(es: Seq<EntryModel>, strip: nat) -> bool {
    forall|i: int| 0 <= i < es.len() ==> step_ok(#[trigger] es[i], strip)
}

/// Runs the visitor over every entry, in stream order, each exactly once.
/// Succeeds exactly when every regular-file or symlink entry carries a path
/// at least as long as the strip prefix; on failure the state is unchanged
/// and nothing is to be written.
pub fn process_entries(visitor: &mut CreateApkVisitor, entries: &Vec<RawEntry>, strip_len: usize) -> (r: Result<Vec<Artifact>, ApkError>)
    requires
        old(visitor)@.counter + entries@.len() <= usize::MAX,
    ensures
        r is Ok <==> all_ok(entries@.map_values(|e: RawEntry| e@), strip_len as nat),
        r matches Ok(v) ==> {
            &&& final(visitor)@ == run(
                old(visitor)@,
                entries@.map_values(|e: RawEntry| e@),
                strip_len as nat,
            )
            &&& v@.map_values(|a: Artifact| a@) == run_artifacts(
                old(visitor)@,
                entries@.map_values(|e: RawEntry| e@),
                strip_len as nat,
            )
        },
        r is Err ==> final(visitor)@ == old(visitor)@ && r == Err::<Vec<Artifact>, ApkError>(
            ApkError::ArchiveFormatError,
        ),
{
    let ghost full = entries@.map_values(|e: RawEntry| e@);
    let mut i: usize = 0;
    while i < entries.len()
        invariant
            i <= entries@.len(),
            full == entries@.map_values(|e: RawEntry| e@),
            forall|k: int| 0 <= k < i ==> step_ok(#[trigger] full[k], strip_len as nat),
        decreases entries@.len() - i,
    {
        let kind = classify(entries[i].typeflag);
        if !matches!(kind, EntryKind::Other) && entries[i].path.len() < strip_len {
            assert(!step_ok(full[i as int], strip_len as nat));
            return Err(ApkError::ArchiveFormatError);
        }
        i = i + 1;
    }
    assert(all_ok(full, strip_len as nat));
    let ghost m0 = visitor@;
    let mut arts: Vec<Artifact> = Vec::new();
    proof {
        assert(full.skip(0) =~= full);
        assert(arts@.map_values(|a: Artifact| a@) =~= Seq::<ArtifactModel>::empty());
        assert(run_artifacts(m0, full, strip_len as nat) =~~= arts@.map_values(|a: Artifact| a@)
            + run_artifacts(m0, full.skip(0), strip_len as nat));
    }
    let mut j: usize = 0;
    while j < entries.len()
        invariant
            j <= entries@.len(),
            full == entries@.map_values(|e: RawEntry| e@),
            all_ok(full, strip_len as nat),
            m0.counter + entries@.len() <= usize::MAX,
            visitor@.counter <= m0.counter + j,
            run(m0, full, strip_len as nat) == run(
                visitor@,
                full.skip(j as int),
                strip_len as nat,
            ),
            run_artifacts(m0, full, strip_len as nat) == arts@.map_values(|a: Artifact| a@)
                + run_artifacts(visitor@, full.skip(j as int), strip_len as nat),
        decreases entries@.len() - j,
    {
        let ghost pre = visitor@;
        assert(full.skip(j as int)[0] == full[j as int]);
        assert(step_ok(full[j as int], strip_len as nat));
        let res = visitor.visit_file(&entries[j], strip_len);
        match res {
            Ok(Option::Some(a)) => {
                arts.push(a);
            },
            Ok(Option::None) => {},
            Err(_) => {
                proof {
                    assert(false);
                }
            },
        }
        j = j + 1;
        proof {
            assert(full.skip(j - 1).drop_first() =~= full.skip(j as int));
            assert(run(pre, full.skip(j - 1), strip_len as nat) == run(
                visitor@,
                full.skip(j as int),
                strip_len as nat,
            ));
            assert(run_artifacts(pre, full.skip(j - 1), strip_len as nat) =~~= step_artifacts(
                pre,
                full[j - 1],
                strip_len as nat,
            ) + run_artifacts(visitor@, full.skip(j as int), strip_len as nat));
            assert(run_artifacts(m0, full, strip_len as nat) =~~= arts@.map_values(|a: Artifact| a@)
                + run_artifacts(visitor@, full.skip(j as int), strip_len as nat));
        }
    }
    proof {
        assert(full.skip(entries@.len() as int) =~= Seq::<EntryModel>::empty());
        assert(run_artifacts(m0, full, strip_len as nat) =~~= arts@.map_values(
            |a: Artifact| a@,
        ));
    }
    Ok(arts)
}

/// The newline-joined text of a manifest: no leading newline, one newline
/// between consecutive lines, no trailing newline.
pub open spec fn join_lines(lines: Seq<Seq<u8>>) -> Seq<u8>
    decreases lines.len(),
{
    if lines.len() == 0 {
        Seq::empty()
    } else if lines.len() == 1 {
        lines[0]
    } else {
        lines[0] + seq![0x0au8] + join_lines(lines.drop_first())
    }
}

proof fn lemma_join_snoc(s: Seq<Seq<u8>>, x: Seq<u8>)
    ensures
        join_lines(s.push(x)) == if s.len() == 0 {
            x
        } else {
            join_lines(s) + seq![0x0au8] + x
        },
    decreases s.len(),
{
    if s.len() == 0 {
        assert(s.push(x).len() == 1);
        assert(s.push(x)[0] == x);
    } else if s.len() == 1 {
        assert(s.push(x)[0] == s[0]);
        assert(s.push(x).drop_first() =~~= seq![x]);
        assert(join_lines(seq![x]) == x);
    } else {
        assert(s.push(x)[0] == s[0]);
        assert(s.push(x).drop_first() =~~= s.drop_first().push(x));
        lemma_join_snoc(s.drop_first(), x);
        assert((s[0] + seq![0x0au8] + join_lines(s.drop_first())) + seq![0x0au8] + x =~= s[0]
            + seq![0x0au8] + (join_lines(s.drop_first()) + seq![0x0au8] + x));
    }
}

/// Joins manifest lines by newline, with no leading and no trailing
/// newline.
pub fn join_manifest(lines: &Vec<Vec<u8>>) -> (r: Vec<u8>)
    ensures
        r@ == join_lines(lines.deep_view()),
{
    let mut r: Vec<u8> = Vec::new();
    proof {
        assert(lines.deep_view().take(0) =~= Seq::<Seq<u8>>::empty());
    }
    let mut i: usize = 0;
    while i < lines.len()
        invariant
            i <= lines@.len(),
            lines.deep_view().len() == lines@.len(),
            r@ == join_lines(lines.deep_view().take(i as int)),
        decreases lines@.len() - i,
    {
        if i > 0 {
            r.push(0x0a);
        }
        append_bytes(&mut r, &lines[i]);
        proof {
            let dv = lines.deep_view();
            assert(dv[i as int] =~= lines@[i as int]@);
            assert(dv.take(i + 1) =~~= dv.take(i as int).push(dv[i as int]));
            lemma_join_snoc(dv.take(i as int), dv[i as int]);
            assert(r@ =~= join_lines(dv.take(i + 1)));
        }
        i = i + 1;
    }
    proof {
        assert(lines.deep_view().take(lines@.len() as int) =~= lines.deep_view());
    }
    r
}

impl CreateApkVisitor {
    /// The mapping manifest as newline-joined text.
    pub fn mapping_manifest(&self) -> (r: Vec<u8>)
        ensures
            r@ == join_lines(self@.mapping),
    {
        join_manifest(&self.mapping_lines)
    }

    /// The symlink manifest as newline-joined text.
    pub fn symlink_manifest(&self) -> (r: Vec<u8>)
        ensures
            r@ == join_lines(self@.symlinks),
    {
        join_manifest(&self.symlink_lines)
    }
}

/// The member-name prefix that marks the inner payload of the outer
/// container, "data.tar".
pub open spec fn payload_prefix() -> Seq<u8> {
    seq![0x64u8, 0x61u8, 0x74u8, 0x61u8, 0x2eu8, 0x74u8, 0x61u8, 0x72u8]
}

/// The member-name suffix that marks a gzip-compressed payload, ".gz".
pub open spec fn gz_suffix() -> Seq<u8> {
    seq![0x2eu8, 0x67u8, 0x7au8]
}

/// Whether a payload member's name marks gzip compression: it ends in
/// ".gz".
pub open spec fn is_gz_name(p: Seq<u8>) -> bool {
    p.len() >= gz_suffix().len() && p.subrange(
        p.len() - gz_suffix().len(),
        p.len() as int,
    ) == gz_suffix()
}

/// Whether an outer member is the inner payload: a regular member whose
/// name begins with "data.tar".
pub open spec fn is_payload_entry(e: EntryModel) -> bool {
    kind_of(e.typeflag) == EntryKind::Regular && e.path.len() >= payload_prefix().len()
        && e.path.subrange(0, payload_prefix().len() as int) == payload_prefix()
}

/// The position of the first payload member of `es`, or -1 when none is
/// present.
pub open spec fn find_payload(es: Seq<EntryModel>) -> int
    decreases es.len(),
{
    if es.len() == 0 {
        -1
    } else if is_payload_entry(es[0]) {
        0
    } else {
        let r = find_payload(es.drop_first());
        if r == -1 {
            -1
        } else {
            r + 1
        }
    }
}

proof fn lemma_find_payload(es: Seq<EntryModel>, i: int)
    requires
        0 <= i <= es.len(),
        forall|k: int| 0 <= k < i ==> !is_payload_entry(#[trigger] es[k]),
        i < es.len() ==> is_payload_entry(es[i]),
    ensures
        i < es.len() ==> find_payload(es) == i,
        i == es.len() ==> find_payload(es) == -1,
    decreases es.len(),
{
    if es.len() == 0 {
    } else if is_payload_entry(es[0]) {
        assert(i == 0);
    } else {
        assert(i >= 1);
        let d = es.drop_first();
        assert(forall|k: int| 0 <= k < i - 1 ==> !is_payload_entry(#[trigger] d[k]));
        assert(i - 1 < d.len() ==> is_payload_entry(d[i - 1]));
        lemma_find_payload(d, i - 1);
    }
}

/// The decompressed inner payload of the outer container, when one is
/// present: the first "data.tar*" member's bytes, gunzipped when its name
/// ends in ".gz".
pub open spec fn payload_of(outer: Seq<u8>) -> Option<Seq<u8>> {
    let es = tar_entries_of(outer);
    let i = find_payload(es);
    if i == -1 {
        Option::None
    } else {
        let e = es[i];
        if is_gz_name(e.path) {
            Option::Some(gunzip_of(e.content))
        } else {
            Option::Some(e.content)
        }
    }
}

/// The manifests the visit of `outer` yields when the container holds a
/// payload and every relevant payload path is at least `strip` long: the
/// mapping manifest and the symlink manifest, as newline-joined text.
pub open spec fn visit_spec(outer: Seq<u8>, strip: nat, dir: Seq<u8>) -> Option<(Seq<u8>, Seq<u8>)> {
    match payload_of(outer) {
        Option::None => Option::None,
        Option::Some(p) => {
            let es = tar_entries_of(p);
            if all_ok(es, strip) {
                let m = run(init_model(dir), es, strip);
                Option::Some((join_lines(m.mapping), join_lines(m.symlinks)))
            } else {
                Option::None
            }
        },
    }
}

/// Whether the visit of `outer` succeeds: the outer stream parses as tar,
/// it holds a "data.tar*" payload member, a ".gz"-named payload
/// decompresses, the payload parses as tar, and every regular-file or
/// symlink path in it is at least `strip` long.
pub open spec fn visit_ok(outer: Seq<u8>, strip: nat) -> bool {
    let es = tar_entries_of(outer);
    let i = find_payload(es);
    &&& tar_ok(outer)
    &&& i >= 0
    &&& (i >= 0 ==> (is_gz_name(es[i].path) ==> gunzip_ok(es[i].content)))
    &&& tar_ok(payload_of(outer)->Some_0)
    &&& all_ok(tar_entries_of(payload_of(outer)->Some_0), strip)
}

/// The numbered artifacts the visit of `outer` yields in its successful
/// case.
pub open spec fn visit_artifacts_spec(outer: Seq<u8>, strip: nat, dir: Seq<u8>) -> Seq<
    ArtifactModel,
> {
    match payload_of(outer) {
        Option::None => Seq::empty(),
        Option::Some(p) => run_artifacts(init_model(dir), tar_entries_of(p), strip),
    }
}

fn payload_prefix_vec() -> (r: Vec<u8>)
    ensures
        r@ == payload_prefix(),
{
    let mut v: Vec<u8> = Vec::new();
    v.push(0x64);
    v.push(0x61);
    v.push(0x74);
    v.push(0x61);
    v.push(0x2e);
    v.push(0x74);
    v.push(0x61);
    v.push(0x72);
    proof {
        assert(v@ =~= payload_prefix());
    }
    v
}

fn gz_suffix_vec() -> (r: Vec<u8>)
    ensures
        r@ == gz_suffix(),
{
    let mut v: Vec<u8> = Vec::new();
    v.push(0x2e);
    v.push(0x67);
    v.push(0x7a);
    proof {
        assert(v@ =~= gz_suffix());
    }
    v
}

/// The outcome of visiting one architecture's archive: the files to be
/// written and the two manifests, all in entry-encounter order.
pub struct ExtractionOutput {
    pub artifacts: Vec<Artifact>,
    pub mapping_manifest: Vec<u8>,
    pub symlink_manifest: Vec<u8>,
}

/// Walks the nested archive: the outer container's members up to the first
/// "data.tar*" member, whose bytes (gunzipped when so named) are the inner
/// payload; every inner entry is then processed exactly once, in stream
/// order. Succeeds exactly when both layers parse, the payload member is
/// present and decompresses, and every relevant entry path is at least
/// `strip_len` long; any failure is `ArchiveFormatError` and yields
/// nothing.
pub fn visit_files(archive: &Vec<u8>, strip_len: usize, output_directory: Vec<u8>) -> (r: Result<
    ExtractionOutput,
    ApkError,
>)
    ensures
        r matches Ok(o) ==> {
            &&& visit_spec(archive@, strip_len as nat, output_directory@) matches Option::Some(ms)
                && o.mapping_manifest@ == ms.0 && o.symlink_manifest@ == ms.1
            &&& o.artifacts@.map_values(|a: Artifact| a@) == visit_artifacts_spec(
                archive@,
                strip_len as nat,
                output_directory@,
            )
        },
        r is Ok <==> visit_ok(archive@, strip_len as nat),
        r matches Err(e) ==> e == ApkError::ArchiveFormatError,
        visit_spec(archive@, strip_len as nat, output_directory@) is None ==> r is Err,
{
    let ghost es = tar_entries_of(archive@);
    let outer = match read_tar_entries(archive) {
        Ok(v) => v,
        Err(_) => {
            assert(!visit_ok(archive@, strip_len as nat));
            return Err(ApkError::ArchiveFormatError);
        },
    };
    let pp = payload_prefix_vec();
    let mut i: usize = 0;
    while i < outer.len()
        invariant
            i <= outer@.len(),
            es == outer@.map_values(|e: RawEntry| e@),
            es == tar_entries_of(archive@),
            tar_ok(archive@),
            pp@ == payload_prefix(),
            forall|k: int| 0 <= k < i ==> !is_payload_entry(#[trigger] es[k]),
        decreases outer@.len() - i,
    {
        assert(es[i as int] == outer@[i as int]@);
        let is_reg = matches!(classify(outer[i].typeflag), EntryKind::Regular);
        if is_reg && has_prefix(&outer[i].path, &pp) {
            proof {
                lemma_find_payload(es, i as int);
            }
            let gz = gz_suffix_vec();
            let use_gz = has_suffix(&outer[i].path, &gz);
            proof {
                assert(use_gz == is_gz_name(es[i as int].path));
            }
            let payload = if use_gz {
                match gunzip(&outer[i].content) {
                    Ok(p) => p,
                    Err(_) => {
                        assert(!gunzip_ok(es[i as int].content));
                        assert(!visit_ok(archive@, strip_len as nat));
                        return Err(ApkError::ArchiveFormatError);
                    },
                }
            } else {
                copy_bytes(&outer[i].content)
            };
            assert(payload_of(archive@) == Option::Some(payload@));
            let inner = match read_tar_entries(&payload) {
                Ok(v) => v,
                Err(_) => {
                    assert(!tar_ok(payload@));
                    assert(!visit_ok(archive@, strip_len as nat));
                    return Err(ApkError::ArchiveFormatError);
                },
            };
            let mut visitor = CreateApkVisitor::new(output_directory);
            assert(visitor@.counter + inner@.len() <= usize::MAX);
            let arts = match process_entries(&mut visitor, &inner, strip_len) {
                Ok(a) => a,
                Err(_) => {
                    assert(!all_ok(tar_entries_of(payload@), strip_len as nat));
                    assert(!visit_ok(archive@, strip_len as nat));
                    return Err(ApkError::ArchiveFormatError);
                },
            };
            assert(visit_ok(archive@, strip_len as nat));
            let mapping_manifest = visitor.mapping_manifest();
            let symlink_manifest = visitor.symlink_manifest();
            return Ok(ExtractionOutput { artifacts: arts, mapping_manifest, symlink_manifest });
        }
        i = i + 1;
    }
    proof {
        lemma_find_payload(es, es.len() as int);
        assert(!visit_ok(archive@, strip_len as nat));
    }
    Err(ApkError::ArchiveFormatError)
}

/// Extraction is a function of the archive bytes alone: a second visit over
/// an independent, byte-identical read of the same content yields
/// byte-identical manifests.
pub proof fn lemma_visit_deterministic(first: Seq<u8>, second: Seq<u8>, strip: nat, dir: Seq<u8>)
    requires
        first == second,
    ensures
        visit_spec(first, strip, dir) == visit_spec(second, strip, dir),
        visit_artifacts_spec(first, strip, dir) == visit_artifacts_spec(second, strip, dir),
{
}


/// The regular-file entries of `es`, in encounter order.
pub open spec fn regular_entries(es: Seq<EntryModel>) -> Seq<EntryModel>
    decreases es.len(),
{
    if es.len() == 0 {
        Seq::empty()
    } else if kind_of(es[0].typeflag) == EntryKind::Regular {
        seq![es[0]] + regular_entries(es.drop_first())
    } else {
        regular_entries(es.drop_first())
    }
}

/// The symlink entries of `es`, in encounter order.
pub open spec fn symlink_entries(es: Seq<EntryModel>) -> Seq<EntryModel>
    decreases es.len(),
{
    if es.len() == 0 {
        Seq::empty()
    } else if kind_of(es[0].typeflag) == EntryKind::Symlink {
        seq![es[0]] + symlink_entries(es.drop_first())
    } else {
        symlink_entries(es.drop_first())
    }
}

/// Each regular file contributes exactly one mapping line and each symlink
/// exactly one symlink line, in encounter order; entries of other kinds
/// contribute to neither manifest. Artifact numbers continue the starting
/// counter contiguously, increasing by exactly 1 per regular file, so a run
/// from the fresh state numbers its mapping lines 0, 1, 2, ... in order.
pub proof fn lemma_run_manifests(m: VisitorModel, es: Seq<EntryModel>, strip: nat)
    requires
        m.counter == m.mapping.len(),
    ensures
        ({
            let f = run(m, es, strip);
            &&& f.out_dir == m.out_dir
            &&& f.counter == m.counter + regular_entries(es).len()
            &&& f.mapping.len() == m.mapping.len() + regular_entries(es).len()
            &&& f.symlinks.len() == m.symlinks.len() + symlink_entries(es).len()
            &&& f.counter == f.mapping.len()
            &&& forall|i: int| 0 <= i < m.mapping.len() ==> f.mapping[i] == m.mapping[i]
            &&& forall|i: int| 0 <= i < m.symlinks.len() ==> f.symlinks[i] == m.symlinks[i]
            &&& forall|i: int|
                m.mapping.len() <= i < f.mapping.len() ==> f.mapping[i] == mapping_line(
                    i as nat,
                    rel_of(regular_entries(es)[i - m.mapping.len()].path, strip),
                )
            &&& forall|i: int|
                m.symlinks.len() <= i < f.symlinks.len() ==> f.symlinks[i] == symlink_line(
                    symlink_entries(es)[i - m.symlinks.len()].link,
                    rel_of(symlink_entries(es)[i - m.symlinks.len()].path, strip),
                )
        }),
    decreases es.len(),
{
    if es.len() == 0 {
    } else {
        let m2 = step(m, es[0], strip);
        let d = es.drop_first();
        lemma_run_manifests(m2, d, strip);
        let f = run(m, es, strip);
        assert(f == run(m2, d, strip));
        match kind_of(es[0].typeflag) {
            EntryKind::Regular => {
                assert(regular_entries(es) =~~= seq![es[0]] + regular_entries(d));
                assert(symlink_entries(es) =~~= symlink_entries(d));
                assert(m2.mapping.len() == m.mapping.len() + 1);
                assert(m2.mapping[m.mapping.len() as int] == mapping_line(
                    m.counter,
                    rel_of(es[0].path, strip),
                ));
                assert(regular_entries(es)[0] == es[0]);
                assert forall|i: int|
                    m.mapping.len() <= i < f.mapping.len() implies f.mapping[i] == mapping_line(
                    i as nat,
                    rel_of(regular_entries(es)[i - m.mapping.len()].path, strip),
                ) by {
                    if i == m.mapping.len() {
                        assert(f.mapping[i] == m2.mapping[i]);
                    } else {
                        assert(regular_entries(es)[i - m.mapping.len()] == regular_entries(
                            d,
                        )[i - m2.mapping.len()]);
                    }
                }
            },
            EntryKind::Symlink => {
                assert(regular_entries(es) =~~= regular_entries(d));
                assert(symlink_entries(es) =~~= seq![es[0]] + symlink_entries(d));
                assert(m2.symlinks.len() == m.symlinks.len() + 1);
                assert(m2.symlinks[m.symlinks.len() as int] == symlink_line(
                    es[0].link,
                    rel_of(es[0].path, strip),
                ));
                assert(symlink_entries(es)[0] == es[0]);
                assert forall|i: int|
                    m.symlinks.len() <= i < f.symlinks.len() implies f.symlinks[i] == symlink_line(
                    symlink_entries(es)[i - m.symlinks.len()].link,
                    rel_of(symlink_entries(es)[i - m.symlinks.len()].path, strip),
                ) by {
                    if i == m.symlinks.len() {
                        assert(f.symlinks[i] == m2.symlinks[i]);
                    } else {
                        assert(symlink_entries(es)[i - m.symlinks.len()] == symlink_entries(
                            d,
                        )[i - m2.symlinks.len()]);
                    }
                }
            },
            EntryKind::Other => {
                assert(regular_entries(es) =~~= regular_entries(d));
                assert(symlink_entries(es) =~~= symlink_entries(d));
            },
        }
    }
}

/// The files written for a run are exactly one per regular-file entry, in
/// encounter order, named contiguously: the i-th one (counting from the
/// starting counter) is "<counter + i>.so" under the output directory and
/// holds that regular file's bytes. Entries of other kinds write nothing.
pub proof fn lemma_run_artifacts(m: VisitorModel, es: Seq<EntryModel>, strip: nat)
    ensures
        ({
            let arts = run_artifacts(m, es, strip);
            &&& arts.len() == regular_entries(es).len()
            &&& forall|i: int|
                0 <= i < arts.len() ==> arts[i] == ArtifactModel {
                    path: artifact_path(m.out_dir, (m.counter + i) as nat),
                    content: regular_entries(es)[i].content,
                }
        }),
    decreases es.len(),
{
    if es.len() == 0 {
    } else {
        let m2 = step(m, es[0], strip);
        let d = es.drop_first();
        lemma_run_artifacts(m2, d, strip);
        let arts = run_artifacts(m, es, strip);
        match kind_of(es[0].typeflag) {
            EntryKind::Regular => {
                assert(regular_entries(es) =~~= seq![es[0]] + regular_entries(d));
                assert(m2.counter == m.counter + 1);
                assert(m2.out_dir == m.out_dir);
                assert forall|i: int|
                    0 <= i < arts.len() implies arts[i] == (ArtifactModel {
                    path: artifact_path(m.out_dir, (m.counter + i) as nat),
                    content: regular_entries(es)[i].content,
                }) by {
                    if i == 0 {
                        assert(arts[0] == step_artifacts(m, es[0], strip)[0]);
                    } else {
                        assert(arts[i] == run_artifacts(m2, d, strip)[i - 1]);
                        assert(regular_entries(es)[i] == regular_entries(d)[i - 1]);
                    }
                }
            },
            EntryKind::Symlink => {
                assert(regular_entries(es) =~~= regular_entries(d));
                assert(m2.counter == m.counter);
                assert(m2.out_dir == m.out_dir);
                assert(arts =~~= run_artifacts(m2, d, strip));
            },
            EntryKind::Other => {
                assert(regular_entries(es) =~~= regular_entries(d));
                assert(arts =~~= run_artifacts(m2, d, strip));
            },
        }
    }
}


/// The successful visit, line by line: its mapping manifest joins exactly
/// one line "<i>.so<ARROW><relative path>" per regular payload entry,
/// numbered 0, 1, 2, ... in encounter order; its symlink manifest joins
/// exactly one line per symlink entry, in encounter order; entries of
/// other kinds contribute to neither; and exactly the regular entries are
/// written, the i-th as artifact "<i>.so" with that entry's bytes.
pub proof fn lemma_visit_manifest_lines(outer: Seq<u8>, strip: nat, dir: Seq<u8>)
    ensures
        visit_spec(outer, strip, dir) is Some ==> ({
            let p = payload_of(outer)->Some_0;
            let es = tar_entries_of(p);
            let m = run(init_model(dir), es, strip);
            let regs = regular_entries(es);
            let syms = symlink_entries(es);
            &&& visit_spec(outer, strip, dir) == Option::Some(
                (join_lines(m.mapping), join_lines(m.symlinks)),
            )
            &&& m.mapping.len() == regs.len()
            &&& m.symlinks.len() == syms.len()
            &&& forall|i: int|
                0 <= i < regs.len() ==> m.mapping[i] == mapping_line(
                    i as nat,
                    rel_of(regs[i].path, strip),
                )
            &&& forall|i: int|
                0 <= i < syms.len() ==> m.symlinks[i] == symlink_line(
                    syms[i].link,
                    rel_of(syms[i].path, strip),
                )
            &&& visit_artifacts_spec(outer, strip, dir).len() == regs.len()
            &&& forall|i: int|
                0 <= i < regs.len() ==> visit_artifacts_spec(outer, strip, dir)[i]
                    == ArtifactModel { path: artifact_path(dir, i as nat), content: regs[i].content }
        }),
{
    if visit_spec(outer, strip, dir) is Some {
        let p = payload_of(outer)->Some_0;
        let es = tar_entries_of(p);
        lemma_run_manifests(init_model(dir), es, strip);
        lemma_run_artifacts(init_model(dir), es, strip);
    }
}


} // verus!
