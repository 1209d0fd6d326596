use vstd::prelude::*;
use crate::bytes::{append_bytes, bytes_eq, copy_bytes, has_prefix, subrange_vec};
use crate::errors::ApkError;

verus! {

/// Ghost model of one package record: the values that determine the
/// package's retrieval URL.
pub struct MetaModel {
    pub name: Seq<u8>,
    pub filename: Seq<u8>,
    pub repo_base: Seq<u8>,
}

/// One package's record in a repository index. `repo_base` is the base URL
/// of the repository the index came from; `filename` locates the package's
/// archive below it.
pub struct PackageMetadata {
    pub name: Vec<u8>,
    pub filename: Vec<u8>,
    pub repo_base: Vec<u8>,
}

impl View for PackageMetadata {
    type V = MetaModel;

    open spec fn view(&self) -> MetaModel {
        MetaModel { name: self.name@, filename: self.filename@, repo_base: self.repo_base@ }
    }
}

/// The retrieval URL of a package record: repository base, one slash, file
/// name. Each record yields exactly this one URL.
pub open spec fn url_of(m: MetaModel) -> Seq<u8> {
    m.repo_base + seq![0x2fu8] + m.filename
}

impl PackageMetadata {
    /// The one retrieval URL this record yields.
    pub fn package_url(&self) -> (r: Vec<u8>)
        ensures
            r@ == url_of(self@),
    {
        let mut r = copy_bytes(&self.repo_base);
        r.push(0x2f);
        append_bytes(&mut r, &self.filename);
        assert(r@ =~= url_of(self@));
        r
    }

    /// A deep copy of this record.
    pub fn duplicate(&self) -> (r: PackageMetadata)
        ensures
            r@ == self@,
    {
        PackageMetadata {
            name: copy_bytes(&self.name),
            filename: copy_bytes(&self.filename),
            repo_base: copy_bytes(&self.repo_base),
        }
    }
}

/// A repository index: a mapping from package name to package record,
/// built fresh per architecture and immutable once built. Its view is the
/// mapping itself; a later insert of an already present name overwrites the
/// earlier record (last wins).
pub struct PackageIndex {
    entries: Vec<PackageMetadata>,
}

impl PackageIndex {
    /// Well-formed: stored package names are pairwise distinct.
    pub closed spec fn wf(&self) -> bool {
        forall|i: int, j: int|
            0 <= i < j < self.entries@.len() ==> self.entries@[i]@.name != self.entries@[j]@.name
    }

    /// Whether some stored record carries the name `n`.
    closed spec fn contains_spec(&self, n: Seq<u8>) -> bool {
        exists|i: int| 0 <= i < self.entries@.len() && self.entries@[i]@.name == n
    }

    /// The position of the record named `n`.
    closed spec fn idx_of(&self, n: Seq<u8>) -> int {
        choose|i: int| 0 <= i < self.entries@.len() && self.entries@[i]@.name == n
    }

    proof fn lemma_idx(&self, n: Seq<u8>)
        requires
            self.wf(),
            self.contains_spec(n),
        ensures
            0 <= self.idx_of(n) < self.entries@.len(),
            self.entries@[self.idx_of(n)]@.name == n,
            forall|k: int|
                0 <= k < self.entries@.len() && self.entries@[k]@.name == n ==> k == self.idx_of(
                    n,
                ),
    {
        let i = self.idx_of(n);
        assert(0 <= i < self.entries@.len() && self.entries@[i]@.name == n);
        assert forall|k: int|
            0 <= k < self.entries@.len() && self.entries@[k]@.name == n implies k == i by {
            if k < i {
                assert(self.entries@[k]@.name != self.entries@[i]@.name);
            } else if i < k {
                assert(self.entries@[i]@.name != self.entries@[k]@.name);
            }
        }
    }

    /// An empty index.
    pub fn new() -> (r: PackageIndex)
        ensures
            r.wf(),
            r@ == Map::<Seq<u8>, MetaModel>::empty(),
    {
        let r = PackageIndex { entries: Vec::new() };
        proof {
            assert(r@ =~= Map::<Seq<u8>, MetaModel>::empty());
        }
        r
    }

    /// Adds `m` under its name; a record already stored under that name is
    /// overwritten (last wins).
    pub fn insert(&mut self, m: PackageMetadata)
        requires
            old(self).wf(),
        ensures
            final(self).wf(),
            final(self)@ == old(self)@.insert(m@.name, m@),
    {
        let ghost pre = *self;
        let mut i: usize = 0;
        while i < self.entries.len()
            invariant
                pre == *old(self),
                pre.wf(),
                *self == pre,
                i <= self.entries@.len(),
                forall|k: int| 0 <= k < i ==> self.entries@[k]@.name != m@.name,
            decreases self.entries@.len() - i,
        {
            if bytes_eq(&self.entries[i].name, &m.name) {
                self.entries.remove(i);
                self.entries.insert(i, m);
                proof {
                    assert(self.entries@.len() == pre.entries@.len());
                    assert(forall|k: int|
                        0 <= k < self.entries@.len() && k != i ==> self.entries@[k]
                            == pre.entries@[k]);
                    assert(self.entries@[i as int]@.name == m@.name);
                    self.lemma_view_after_replace(pre, i as int);
                }
                return ;
            }
            i = i + 1;
        }
        self.entries.push(m);
        proof {
            assert(forall|k: int|
                0 <= k < pre.entries@.len() ==> self.entries@[k] == pre.entries@[k]);
            self.lemma_view_after_push(pre);
        }
    }

    proof fn lemma_view_after_replace(&self, pre: PackageIndex, i: int)
        requires
            pre.wf(),
            self.entries@.len() == pre.entries@.len(),
            0 <= i < pre.entries@.len(),
            pre.entries@[i]@.name == self.entries@[i]@.name,
            forall|k: int|
                0 <= k < self.entries@.len() && k != i ==> self.entries@[k] == pre.entries@[k],
        ensures
            self.wf(),
            self@ == pre@.insert(self.entries@[i]@.name, self.entries@[i]@),
    {
        let n = self.entries@[i]@.name;
        assert(self.wf());
        assert forall|q: Seq<u8>| #[trigger] self.contains_spec(q) == (pre.contains_spec(q) || q
            == n) by {
            if self.contains_spec(q) {
                let k = choose|k: int|
                    0 <= k < self.entries@.len() && self.entries@[k]@.name == q;
                if k != i {
                    assert(pre.entries@[k]@.name == q);
                }
            }
            if pre.contains_spec(q) {
                let k = choose|k: int| 0 <= k < pre.entries@.len() && pre.entries@[k]@.name == q;
                if k != i {
                    assert(self.entries@[k]@.name == q);
                }
            }
            if q == n {
                assert(self.entries@[i]@.name == q);
            }
        }
        assert forall|q: Seq<u8>| true implies #[trigger] self@.contains_key(q) == pre@.insert(
            n,
            self.entries@[i]@,
        ).contains_key(q) by {
            assert(self@.contains_key(q) == self.contains_spec(q));
        }
        assert forall|q: Seq<u8>| self@.contains_key(q) implies self@[q] == pre@.insert(
            n,
            self.entries@[i]@,
        )[q] by {
            self.lemma_idx(q);
            if q == n {
                assert(self.idx_of(q) == i);
            } else {
                let k = self.idx_of(q);
                assert(k != i);
                assert(pre.entries@[k]@.name == q);
                pre.lemma_idx(q);
                assert(pre.idx_of(q) == k);
            }
        }
        assert(self@ =~= pre@.insert(n, self.entries@[i]@));
    }

    proof fn lemma_view_after_push(&self, pre: PackageIndex)
        requires
            pre.wf(),
            self.entries@.len() == pre.entries@.len() + 1,
            forall|k: int| 0 <= k < pre.entries@.len() ==> self.entries@[k] == pre.entries@[k],
            !pre.contains_spec(self.entries@[pre.entries@.len() as int]@.name),
        ensures
            self.wf(),
            self@ == pre@.insert(
                self.entries@[pre.entries@.len() as int]@.name,
                self.entries@[pre.entries@.len() as int]@,
            ),
    {
        let last = pre.entries@.len() as int;
        let n = self.entries@[last]@.name;
        assert forall|i: int, j: int|
            0 <= i < j < self.entries@.len() implies self.entries@[i]@.name
            != self.entries@[j]@.name by {
            if j < last {
                assert(pre.entries@[i]@.name != pre.entries@[j]@.name);
            } else {
                assert(j == last);
                if self.entries@[i]@.name == n {
                    assert(pre.entries@[i]@.name == n);
                    assert(pre.contains_spec(n));
                }
            }
        }
        assert forall|q: Seq<u8>| #[trigger] self.contains_spec(q) == (pre.contains_spec(q) || q
            == n) by {
            if self.contains_spec(q) {
                let k = choose|k: int|
                    0 <= k < self.entries@.len() && self.entries@[k]@.name == q;
                if k != last {
                    assert(pre.entries@[k]@.name == q);
                }
            }
            if pre.contains_spec(q) {
                let k = choose|k: int| 0 <= k < pre.entries@.len() && pre.entries@[k]@.name == q;
                assert(self.entries@[k]@.name == q);
            }
        }
        assert forall|q: Seq<u8>| self@.contains_key(q) implies self@[q] == pre@.insert(
            n,
            self.entries@[last]@,
        )[q] by {
            self.lemma_idx(q);
            if q == n {
                assert(self.idx_of(q) == last);
            } else {
                let k = self.idx_of(q);
                assert(k != last);
                assert(pre.entries@[k]@.name == q);
                pre.lemma_idx(q);
                assert(pre.idx_of(q) == k);
            }
        }
        assert(self@ =~= pre@.insert(n, self.entries@[last]@));
    }

    /// Looks the name up; `None` exactly when no record carries it.
    pub fn get(&self, name: &Vec<u8>) -> (r: Option<&PackageMetadata>)
        requires
            self.wf(),
        ensures
            r matches Some(m) ==> self@.contains_key(name@) && m@ == self@[name@],
            r is None ==> !self@.contains_key(name@),
    {
        let mut i: usize = 0;
        while i < self.entries.len()
            invariant
                self.wf(),
                i <= self.entries@.len(),
                forall|k: int| 0 <= k < i ==> self.entries@[k]@.name != name@,
            decreases self.entries@.len() - i,
        {
            if bytes_eq(&self.entries[i].name, name) {
                proof {
                    self.lemma_idx(name@);
                    assert(self.idx_of(name@) == i);
                }
                return Some(&self.entries[i]);
            }
            i = i + 1;
        }
        proof {
            assert(!self.contains_spec(name@));
        }
        None
    }

}

impl View for PackageIndex {
    type V = Map<Seq<u8>, MetaModel>;

    closed spec fn view(&self) -> Map<Seq<u8>, MetaModel> {
        Map::new(
            |n: Seq<u8>| self.contains_spec(n),
            |n: Seq<u8>| self.entries@[self.idx_of(n)]@,
        )
    }
}

/// Resolves a package name: the architecture-specific index is consulted
/// first, the architecture-independent index second; an entry present in
/// both is taken from the architecture-specific index. The name absent from
/// both is exactly the `PackageNotFound` case.
pub fn resolve(name: &Vec<u8>, arch_index: &PackageIndex, all_index: &PackageIndex) -> (r: Result<
    PackageMetadata,
    ApkError,
>)
    requires
        arch_index.wf(),
        all_index.wf(),
    ensures
        arch_index@.contains_key(name@) ==> (r matches Ok(m) && m@ == arch_index@[name@]),
        (!arch_index@.contains_key(name@) && all_index@.contains_key(name@)) ==> (r matches Ok(m)
            && m@ == all_index@[name@]),
        (!arch_index@.contains_key(name@) && !all_index@.contains_key(name@)) ==> r == Err::<
            PackageMetadata,
            ApkError,
        >(ApkError::PackageNotFound),
{
    match arch_index.get(name) {
        Some(m) => Ok(m.duplicate()),
        None => match all_index.get(name) {
            Some(m) => Ok(m.duplicate()),
            None => Err(ApkError::PackageNotFound),
        },
    }
}

/// Resolves a package name to its retrieval URL, with the same precedence
/// and failure case as `resolve`.
pub fn resolve_url(name: &Vec<u8>, arch_index: &PackageIndex, all_index: &PackageIndex) -> (r:
    Result<Vec<u8>, ApkError>)
    requires
        arch_index.wf(),
        all_index.wf(),
    ensures
        arch_index@.contains_key(name@) ==> (r matches Ok(u) && u@ == url_of(
            arch_index@[name@],
        )),
        (!arch_index@.contains_key(name@) && all_index@.contains_key(name@)) ==> (r matches Ok(u)
            && u@ == url_of(all_index@[name@])),
        (!arch_index@.contains_key(name@) && !all_index@.contains_key(name@)) ==> r == Err::<
            Vec<u8>,
            ApkError,
        >(ApkError::PackageNotFound),
{
    match resolve(name, arch_index, all_index) {
        Ok(m) => Ok(m.package_url()),
        Err(e) => Err(e),
    }
}

/// The position of the first newline at or after `i`, or the end of `s`.
pub open spec fn line_end(s: Seq<u8>, i: int) -> int
    decreases s.len() - i,
    when 0 <= i <= s.len()
{
    if i >= s.len() {
        s.len() as int
    } else if s[i] == 0x0a {
        i
    } else {
        line_end(s, i + 1)
    }
}

proof fn lemma_line_end_bounds(s: Seq<u8>, i: int)
    requires
        0 <= i <= s.len(),
    ensures
        i <= line_end(s, i) <= s.len(),
    decreases s.len() - i,
{
    if i >= s.len() {
    } else if s[i] == 0x0a {
    } else {
        lemma_line_end_bounds(s, i + 1);
    }
}

/// The lines of `s` from position `i` on, split at each newline: a
/// trailing newline yields a final empty line, and the empty input is one
/// empty line.
pub open spec fn split_from(s: Seq<u8>, i: int) -> Seq<Seq<u8>>
    decreases s.len() - i,
    when 0 <= i <= s.len()
    via split_from_dec
{
    if line_end(s, i) >= s.len() {
        seq![s.subrange(i, s.len() as int)]
    } else {
        seq![s.subrange(i, line_end(s, i))] + split_from(s, line_end(s, i) + 1)
    }
}

#[via_fn]
proof fn split_from_dec(s: Seq<u8>, i: int) {
    lemma_line_end_bounds(s, i);
}

/// Splits `data` into its lines.
pub fn split_lines(data: &Vec<u8>) -> (r: Vec<Vec<u8>>)
    ensures
        r.deep_view() == split_from(data@, 0),
{
    let mut out: Vec<Vec<u8>> = Vec::new();
    let mut i: usize = 0;
    proof {
        assert(out.deep_view() =~~= Seq::<Seq<u8>>::empty());
        assert(split_from(data@, 0) =~~= out.deep_view() + split_from(data@, 0));
    }
    loop
        invariant_except_break
            i <= data@.len(),
            split_from(data@, 0) == out.deep_view() + split_from(data@, i as int),
        ensures
            out.deep_view() == split_from(data@, 0),
        decreases data@.len() - i,
    {
        let ghost pre_out = out.deep_view();
        let mut e: usize = i;
        while e < data.len() && data[e] != 0x0a
            invariant
                i <= e <= data@.len(),
                line_end(data@, i as int) == line_end(data@, e as int),
            decreases data@.len() - e,
        {
            e = e + 1;
        }
        proof {
            assert(line_end(data@, e as int) == e);
            lemma_line_end_bounds(data@, i as int);
        }
        let line = subrange_vec(data, i, e);
        out.push(line);
        proof {
            assert(out.deep_view() =~~= pre_out.push(line@));
        }
        if e == data.len() {
            proof {
                assert(split_from(data@, i as int) =~~= seq![line@]);
                assert(pre_out.push(line@) =~~= pre_out + seq![line@]);
                assert(out.deep_view() =~~= split_from(data@, 0));
            }
            break;
        }
        proof {
            assert(data@[e as int] == 0x0a);
            assert(split_from(data@, i as int) =~~= seq![line@] + split_from(data@, e + 1));
            assert(pre_out.push(line@) + split_from(data@, e + 1) =~~= pre_out + split_from(
                data@,
                i as int,
            ));
        }
        i = e + 1;
    }
    out
}

/// Ghost model of the paragraph parser's state: the records committed so
/// far and the fields of the open paragraph.
pub struct ParseModel {
    pub idx: Map<Seq<u8>, MetaModel>,
    pub cur_name: Option<Seq<u8>>,
    pub cur_file: Option<Seq<u8>>,
}

/// The parser's starting state.
pub open spec fn init_parse() -> ParseModel {
    ParseModel { idx: Map::empty(), cur_name: Option::None, cur_file: Option::None }
}

/// The view of an optional owned byte string.
pub open spec fn opt_view(o: Option<Vec<u8>>) -> Option<Seq<u8>> {
    match o {
        Option::Some(v) => Option::Some(v@),
        Option::None => Option::None,
    }
}

/// The field tag that declares a package name, "Package: ".
pub open spec fn package_prefix() -> Seq<u8> {
    seq![0x50u8, 0x61u8, 0x63u8, 0x6bu8, 0x61u8, 0x67u8, 0x65u8, 0x3au8, 0x20u8]
}

/// The field tag that declares a package file name, "Filename: ".
pub open spec fn filename_prefix() -> Seq<u8> {
    seq![0x46u8, 0x69u8, 0x6cu8, 0x65u8, 0x6eu8, 0x61u8, 0x6du8, 0x65u8, 0x3au8, 0x20u8]
}

/// Closing a paragraph: both fields present commit one record (a repeated
/// name overwrites, last wins); neither present commits nothing; exactly
/// one present is malformed.
pub open spec fn commit_par(st: ParseModel, base: Seq<u8>) -> Option<ParseModel> {
    match (st.cur_name, st.cur_file) {
        (Option::Some(n), Option::Some(f)) => Option::Some(
            ParseModel {
                idx: st.idx.insert(n, MetaModel { name: n, filename: f, repo_base: base }),
                cur_name: Option::None,
                cur_file: Option::None,
            },
        ),
        (Option::None, Option::None) => Option::Some(st),
        _ => Option::None,
    }
}

/// One line of the index: a blank line closes the paragraph, a "Package: "
/// or "Filename: " line sets that field of the open paragraph, any other
/// line is ignored.
pub open spec fn pstep(st: ParseModel, line: Seq<u8>, base: Seq<u8>) -> Option<ParseModel> {
    if line.len() == 0 {
        commit_par(st, base)
    } else if line.len() >= package_prefix().len() && line.subrange(
        0,
        package_prefix().len() as int,
    ) == package_prefix() {
        Option::Some(
            ParseModel { cur_name: Option::Some(line.skip(package_prefix().len() as int)), ..st },
        )
    } else if line.len() >= filename_prefix().len() && line.subrange(
        0,
        filename_prefix().len() as int,
    ) == filename_prefix() {
        Option::Some(
            ParseModel { cur_file: Option::Some(line.skip(filename_prefix().len() as int)), ..st },
        )
    } else {
        Option::Some(st)
    }
}

/// The parser's state after the lines from `i` on, or `None` on the first
/// malformed paragraph.
pub open spec fn pfold(lines: Seq<Seq<u8>>, i: int, st: ParseModel, base: Seq<u8>) -> Option<
    ParseModel,
>
    decreases lines.len() - i,
    when 0 <= i <= lines.len()
{
    if i >= lines.len() {
        Option::Some(st)
    } else {
        match pstep(st, lines[i], base) {
            Option::None => Option::None,
            Option::Some(st2) => pfold(lines, i + 1, st2, base),
        }
    }
}

/// The index that the text `s` declares, one record per paragraph carrying
/// both a "Package: " and a "Filename: " field, later duplicates
/// overwriting earlier ones; `None` when some paragraph carries exactly
/// one of the two fields.
pub open spec fn parse_index_spec(s: Seq<u8>, base: Seq<u8>) -> Option<Map<Seq<u8>, MetaModel>> {
    match pfold(split_from(s, 0), 0, init_parse(), base) {
        Option::None => Option::None,
        Option::Some(st) => match commit_par(st, base) {
            Option::None => Option::None,
            Option::Some(st2) => Option::Some(st2.idx),
        },
    }
}

fn package_prefix_vec() -> (r: Vec<u8>)
    ensures
        r@ == package_prefix(),
{
    let mut v: Vec<u8> = Vec::new();
    v.push(0x50);
    v.push(0x61);
    v.push(0x63);
    v.push(0x6b);
    v.push(0x61);
    v.push(0x67);
    v.push(0x65);
    v.push(0x3a);
    v.push(0x20);
    proof {
        assert(v@ =~= package_prefix());
    }
    v
}

fn filename_prefix_vec() -> (r: Vec<u8>)
    ensures
        r@ == filename_prefix(),
{
    let mut v: Vec<u8> = Vec::new();
    v.push(0x46);
    v.push(0x69);
    v.push(0x6c);
    v.push(0x65);
    v.push(0x6e);
    v.push(0x61);
    v.push(0x6d);
    v.push(0x65);
    v.push(0x3a);
    v.push(0x20);
    proof {
        assert(v@ =~= filename_prefix());
    }
    v
}

fn commit_state(
    ix: &mut PackageIndex,
    cur_name: &mut Option<Vec<u8>>,
    cur_file: &mut Option<Vec<u8>>,
    repo_base: &Vec<u8>,
) -> (r: Result<(), ApkError>)
    requires
        old(ix).wf(),
    ensures
        final(ix).wf(),
        ({
            let pre = ParseModel {
                idx: old(ix)@,
                cur_name: opt_view(*old(cur_name)),
                cur_file: opt_view(*old(cur_file)),
            };
            let post = ParseModel {
                idx: final(ix)@,
                cur_name: opt_view(*final(cur_name)),
                cur_file: opt_view(*final(cur_file)),
            };
            &&& (commit_par(pre, repo_base@) matches Option::Some(st) ==> r is Ok && post == st)
            &&& (commit_par(pre, repo_base@) is None ==> r == Err::<(), ApkError>(
                ApkError::IndexFetchError,
            ))
        }),
{
    let has_name = cur_name.is_some();
    let has_file = cur_file.is_some();
    if has_name && has_file {
        let n = match cur_name {
            Option::Some(n) => copy_bytes(n),
            Option::None => {
                proof {
                    assert(false);
                }
                Vec::new()
            },
        };
        let f = match cur_file {
            Option::Some(f) => copy_bytes(f),
            Option::None => {
                proof {
                    assert(false);
                }
                Vec::new()
            },
        };
        let meta = PackageMetadata { name: n, filename: f, repo_base: copy_bytes(repo_base) };
        ix.insert(meta);
        *cur_name = Option::None;
        *cur_file = Option::None;
        Ok(())
    } else if !has_name && !has_file {
        Ok(())
    } else {
        Err(ApkError::IndexFetchError)
    }
}

/// Parses index text into an index: one record per paragraph that declares
/// "Package: " and "Filename: " fields, a later duplicate name overwriting
/// an earlier one. A paragraph carrying exactly one of the two fields is
/// malformed, exactly the `IndexFetchError` case.
pub fn parse_index(data: &Vec<u8>, repo_base: &Vec<u8>) -> (r: Result<PackageIndex, ApkError>)
    ensures
        r matches Ok(ix) ==> ix.wf() && parse_index_spec(data@, repo_base@) == Option::Some(ix@),
        r is Err ==> parse_index_spec(data@, repo_base@) is None && r == Err::<
            PackageIndex,
            ApkError,
        >(ApkError::IndexFetchError),
{
    let lines = split_lines(data);
    let ghost all = lines.deep_view();
    let mut ix = PackageIndex::new();
    let mut cur_name: Option<Vec<u8>> = Option::None;
    let mut cur_file: Option<Vec<u8>> = Option::None;
    let pkg_prefix = package_prefix_vec();
    let file_prefix = filename_prefix_vec();
    let mut i: usize = 0;
    while i < lines.len()
        invariant
            i <= lines@.len(),
            all == lines.deep_view(),
            all == split_from(data@, 0),
            all.len() == lines@.len(),
            ix.wf(),
            pkg_prefix@ == package_prefix(),
            file_prefix@ == filename_prefix(),
            pfold(all, 0, init_parse(), repo_base@) == pfold(
                all,
                i as int,
                ParseModel { idx: ix@, cur_name: opt_view(cur_name), cur_file: opt_view(cur_file) },
                repo_base@,
            ),
        decreases lines@.len() - i,
    {
        let ghost pre = ParseModel {
            idx: ix@,
            cur_name: opt_view(cur_name),
            cur_file: opt_view(cur_file),
        };
        proof {
            assert(all[i as int] =~= lines@[i as int]@);
        }
        let line = &lines[i];
        if line.len() == 0 {
            match commit_state(&mut ix, &mut cur_name, &mut cur_file, repo_base) {
                Ok(()) => {},
                Err(_) => {
                    proof {
                        assert(pstep(pre, all[i as int], repo_base@) is None);
                        assert(pfold(all, i as int, pre, repo_base@) is None);
                    }
                    return Err(ApkError::IndexFetchError);
                },
            }
        } else if has_prefix(line, &pkg_prefix) {
            cur_name = Option::Some(subrange_vec(line, 9, line.len()));
            proof {
                assert(cur_name->Some_0@ =~= all[i as int].skip(package_prefix().len() as int));
            }
        } else if has_prefix(line, &file_prefix) {
            cur_file = Option::Some(subrange_vec(line, 10, line.len()));
            proof {
                assert(cur_file->Some_0@ =~= all[i as int].skip(filename_prefix().len() as int));
            }
        } else {
        }
        proof {
            let cur = ParseModel {
                idx: ix@,
                cur_name: opt_view(cur_name),
                cur_file: opt_view(cur_file),
            };
            assert(pstep(pre, all[i as int], repo_base@) == Option::Some(cur));
            assert(pfold(all, i as int, pre, repo_base@) == pfold(
                all,
                i + 1,
                cur,
                repo_base@,
            ));
        }
        i = i + 1;
    }
    let ghost fin = ParseModel { idx: ix@, cur_name: opt_view(cur_name), cur_file: opt_view(cur_file) };
    proof {
        assert(pfold(all, 0, init_parse(), repo_base@) == Option::Some(fin));
    }
    match commit_state(&mut ix, &mut cur_name, &mut cur_file, repo_base) {
        Ok(()) => {},
        Err(_) => {
            return Err(ApkError::IndexFetchError);
        },
    }
    Ok(ix)
}


} // verus!
