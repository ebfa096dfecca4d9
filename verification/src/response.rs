//! Inspection of decoded response payloads: listing, extracting and checking
//! data entries, and listing and showing file history.
//!
//! Decoding the wire format and printing are the runtime's work; the
//! selection, grouping and ordering decisions are made and verified here.

use vstd::prelude::*;
use vstd::string::StringSliceAdditionalSpecFns;
use vstd::utf8::encode_utf8;

verus! {

/// A content key: a repository path and the node hash of one version of it.
#[derive(Debug)]
pub struct Key {
    pub path: String,
    pub hgid: Vec<u8>,
}

/// Whether two keys name the same path and node.
pub open spec fn same_key(a: Key, b: Key) -> bool {
    a.path@ == b.path@ && a.hgid@ == b.hgid@
}

impl Key {
    pub fn new(path: String, hgid: Vec<u8>) -> (key: Key)
        ensures
            key.path@ == path@,
            key.hgid@ == hgid@,
    {
        Key { path, hgid }
    }

    pub fn duplicate(&self) -> (key: Key)
        ensures
            same_key(key, *self),
    {
        Key { path: self.path.clone(), hgid: self.hgid.clone() }
    }

    /// Decides whether this key names the same path and node as another.
    pub fn matches(&self, other: &Key) -> (eq: bool)
        ensures
            eq == same_key(*self, *other),
    {
        if !(self.path == other.path) {
            return false;
        }
        let eq = bytes_eq(self.hgid.as_slice(), other.hgid.as_slice());
        eq
    }
}

/// Decides byte equality of two slices.
fn bytes_eq(a: &[u8], b: &[u8]) -> (eq: bool)
    ensures
        eq == (a@ == b@),
{
    if a.len() != b.len() {
        return false;
    }
    let n = a.len();
    let mut i: usize = 0;
    while i < n
        invariant
            n == a@.len() == b@.len(),
            i <= n,
            forall|j: int| 0 <= j < i ==> a@[j] == b@[j],
        decreases n - i,
    {
        if a[i] != b[i] {
            return false;
        }
        i = i + 1;
    }
    assert(a@ =~= b@);
    true
}

/// The verdict on one data entry's content against its key, as the decoder
/// established it: sound, deliberately redacted, possibly hashed under the
/// older flat-manifest scheme, or failing its hash outright.
#[derive(Debug)]
pub enum DataValidity {
    Valid,
    Redacted,
    MaybeHybridManifest(String),
    Corrupt(String),
}

/// Whether two verdicts agree, message included.
pub open spec fn same_validity(a: DataValidity, b: DataValidity) -> bool {
    match (a, b) {
        (DataValidity::Valid, DataValidity::Valid) => true,
        (DataValidity::Redacted, DataValidity::Redacted) => true,
        (DataValidity::MaybeHybridManifest(x), DataValidity::MaybeHybridManifest(y)) => x@ == y@,
        (DataValidity::Corrupt(x), DataValidity::Corrupt(y)) => x@ == y@,
        _ => false,
    }
}

impl DataValidity {
    pub fn duplicate(&self) -> (v: DataValidity)
        ensures
            same_validity(v, *self),
    {
        match self {
            DataValidity::Valid => DataValidity::Valid,
            DataValidity::Redacted => DataValidity::Redacted,
            DataValidity::MaybeHybridManifest(m) => DataValidity::MaybeHybridManifest(m.clone()),
            DataValidity::Corrupt(m) => DataValidity::Corrupt(m.clone()),
        }
    }
}

/// One data entry of a response: its key, its raw content, and the verdict
/// on the content.
#[derive(Debug)]
pub struct DataEntry {
    pub key: Key,
    pub data: Vec<u8>,
    pub validity: DataValidity,
}

impl DataEntry {
    /// The entry's content, or the verdict that disqualifies it.
    pub fn data(&self) -> (r: Result<&Vec<u8>, &DataValidity>)
        ensures
            match self.validity {
                DataValidity::Valid => r matches Ok(d) && d@ == self.data@,
                _ => r matches Err(v) && *v == self.validity,
            },
    {
        match &self.validity {
            DataValidity::Valid => Ok(&self.data),
            v => Err(v),
        }
    }
}

/// The parent nodes of one file version: none, one, or two.
#[derive(Debug)]
pub enum Parents {
    NoParents,
    OneParent(Vec<u8>),
    TwoParents(Vec<u8>, Vec<u8>),
}

impl View for Parents {
    type V = Seq<Seq<u8>>;

    closed spec fn view(&self) -> Seq<Seq<u8>> {
        match self {
            Parents::NoParents => Seq::empty(),
            Parents::OneParent(p1) => seq![p1@],
            Parents::TwoParents(p1, p2) => seq![p1@, p2@],
        }
    }
}

impl Parents {
    pub fn duplicate(&self) -> (p: Parents)
        ensures
            p@ == self@,
    {
        match self {
            Parents::NoParents => Parents::NoParents,
            Parents::OneParent(p1) => Parents::OneParent(p1.clone()),
            Parents::TwoParents(p1, p2) => Parents::TwoParents(p1.clone(), p2.clone()),
        }
    }
}

/// The mathematical content of one history entry.
pub struct HistoryEntryModel {
    pub node: Seq<u8>,
    pub parents: Seq<Seq<u8>>,
    pub linknode: Seq<u8>,
    pub copyfrom: Option<Seq<char>>,
}

/// One step of a file's history: the node, its parents, the commit that
/// introduced it, and the path it was copied from, if any.
#[derive(Debug)]
pub struct WireHistoryEntry {
    pub node: Vec<u8>,
    pub parents: Parents,
    pub linknode: Vec<u8>,
    pub copyfrom: Option<String>,
}

impl View for WireHistoryEntry {
    type V = HistoryEntryModel;

    closed spec fn view(&self) -> HistoryEntryModel {
        HistoryEntryModel {
            node: self.node@,
            parents: self.parents@,
            linknode: self.linknode@,
            copyfrom: match self.copyfrom {
                None => None,
                Some(p) => Some(p@),
            },
        }
    }
}

impl WireHistoryEntry {
    pub fn duplicate(&self) -> (e: WireHistoryEntry)
        ensures
            e@ == self@,
    {
        WireHistoryEntry {
            node: self.node.clone(),
            parents: self.parents.duplicate(),
            linknode: self.linknode.clone(),
            copyfrom: match &self.copyfrom {
                None => None,
                Some(p) => Some(p.clone()),
            },
        }
    }
}

/// One chunk of a history response: a path and some of its history entries.
#[derive(Debug)]
pub struct HistoryResponseChunk {
    pub path: String,
    pub entries: Vec<WireHistoryEntry>,
}

/// The mathematical content of a run of history entries.
pub open spec fn entries_view(es: Seq<WireHistoryEntry>) -> Seq<HistoryEntryModel> {
    es.map_values(|e: WireHistoryEntry| e@)
}

/// Extending a run of entries extends its content.
proof fn lemma_entries_view_push(es: Seq<WireHistoryEntry>, e: WireHistoryEntry)
    ensures
        entries_view(es.push(e)) =~= entries_view(es).push(e@),
{
    assert forall|j: int| 0 <= j < es.len() + 1 implies entries_view(es.push(e))[j]
        == entries_view(es).push(e@)[j] by {
        if j < es.len() {
            assert(es.push(e)[j] == es[j]);
        } else {
            assert(es.push(e)[j] == e);
        }
    }
}

/// Every history entry the response holds for a path, in response order.
pub open spec fn entries_for(chunks: Seq<HistoryResponseChunk>, path: Seq<char>) -> Seq<
    HistoryEntryModel,
>
    decreases chunks.len(),
{
    if chunks.len() == 0 {
        Seq::empty()
    } else {
        let rest = entries_for(chunks.drop_last(), path);
        if chunks.last().path@ == path {
            rest + entries_view(chunks.last().entries@)
        } else {
            rest
        }
    }
}

/// Byte-wise lexicographic order, the order Rust gives strings.
pub open spec fn lex_bytes_lt(a: Seq<u8>, b: Seq<u8>) -> bool
    decreases a.len(),
{
    if b.len() == 0 {
        false
    } else if a.len() == 0 {
        true
    } else if a[0] < b[0] {
        true
    } else if b[0] < a[0] {
        false
    } else {
        lex_bytes_lt(a.skip(1), b.skip(1))
    }
}

/// Two byte strings are ordered one way, the other, or equal.
pub proof fn lemma_lex_trichotomy(a: Seq<u8>, b: Seq<u8>)
    ensures
        lex_bytes_lt(a, b) || lex_bytes_lt(b, a) || a == b,
    decreases a.len(),
{
    if a.len() == 0 && b.len() == 0 {
        assert(a =~= b);
    } else if a.len() > 0 && b.len() > 0 && a[0] == b[0] {
        lemma_lex_trichotomy(a.skip(1), b.skip(1));
        if !lex_bytes_lt(a, b) && !lex_bytes_lt(b, a) {
            assert(a.skip(1) == b.skip(1));
            assert forall|i: int| 0 <= i < a.len() implies a[i] == b[i] by {
                if i > 0 {
                    assert(a.skip(1)[i - 1] == a[i]);
                    assert(b.skip(1)[i - 1] == b[i]);
                }
            }
            assert(a =~= b);
        }
    }
}

/// Byte-wise lexicographic order is transitive.
pub proof fn lemma_lex_transitive(a: Seq<u8>, b: Seq<u8>, c: Seq<u8>)
    requires
        lex_bytes_lt(a, b),
        lex_bytes_lt(b, c),
    ensures
        lex_bytes_lt(a, c),
    decreases a.len(),
{
    if a.len() > 0 {
        if a[0] == b[0] && b[0] == c[0] {
            lemma_lex_transitive(a.skip(1), b.skip(1), c.skip(1));
        }
    }
}

fn lex_lt_from(a: &[u8], b: &[u8], i: usize) -> (lt: bool)
    requires
        i <= a@.len(),
        i <= b@.len(),
    ensures
        lt == lex_bytes_lt(a@.skip(i as int), b@.skip(i as int)),
    decreases a@.len() - i,
{
    proof {
        if i < a@.len() {
            assert(a@.skip(i as int)[0] == a@[i as int]);
            assert(a@.skip(i as int).skip(1) =~= a@.skip(i + 1));
        }
        if i < b@.len() {
            assert(b@.skip(i as int)[0] == b@[i as int]);
            assert(b@.skip(i as int).skip(1) =~= b@.skip(i + 1));
        }
    }
    if i == b.len() {
        false
    } else if i == a.len() {
        true
    } else if a[i] < b[i] {
        true
    } else if b[i] < a[i] {
        false
    } else {
        lex_lt_from(a, b, i + 1)
    }
}

/// The bytes a path sorts by.
pub open spec fn path_bytes(s: String) -> Seq<u8> {
    encode_utf8(s@)
}

/// Decides the byte-wise order of two paths.
pub fn path_lt(a: &String, b: &String) -> (lt: bool)
    ensures
        lt == lex_bytes_lt(path_bytes(*a), path_bytes(*b)),
{
    let ab = a.as_str().as_bytes();
    let bb = b.as_str().as_bytes();
    proof {
        assert(ab@.skip(0) =~= ab@);
        assert(bb@.skip(0) =~= bb@);
    }
    lex_lt_from(ab, bb, 0)
}

/// Decides whether two paths carry the same bytes.
pub fn path_eq(a: &String, b: &String) -> (eq: bool)
    ensures
        eq == (path_bytes(*a) == path_bytes(*b)),
{
    bytes_eq(a.as_str().as_bytes(), b.as_str().as_bytes())
}

/// Paths in strictly increasing byte order; in particular, no repeats.
pub open spec fn paths_sorted(ps: Seq<String>) -> bool {
    forall|a: int, b: int|
        0 <= a < b < ps.len() ==> lex_bytes_lt(
            path_bytes(#[trigger] ps[a]),
            path_bytes(#[trigger] ps[b]),
        )
}

/// Whether some listed path carries the given bytes.
pub open spec fn has_path_bytes(ps: Seq<String>, bytes: Seq<u8>) -> bool {
    exists|i: int| 0 <= i < ps.len() && path_bytes(#[trigger] ps[i]) == bytes
}

/// Whether every listed path occurs in the response.
pub open spec fn paths_from_chunks(ps: Seq<String>, chunks: Seq<HistoryResponseChunk>) -> bool {
    forall|k: int|
        0 <= k < ps.len() ==> exists|j: int|
            0 <= j < chunks.len() && path_bytes(chunks[j].path) == path_bytes(#[trigger] ps[k])
}

/// Each listed path's witness among the chunks, one index at a time.
proof fn lemma_paths_from_chunks_index(
    ps: Seq<String>,
    chunks: Seq<HistoryResponseChunk>,
    m: int,
)
    requires
        paths_from_chunks(ps, chunks),
        0 <= m < ps.len(),
    ensures
        exists|j: int|
            0 <= j < chunks.len() && path_bytes(chunks[j].path) == path_bytes(ps[m]),
{
    assert(0 <= m < ps.len() && path_bytes(ps[m]) == path_bytes(ps[m]));
}

/// Inserts a path into a sorted list unless its bytes are already there.
fn insert_path_sorted(paths: &mut Vec<String>, p: &String)
    requires
        paths_sorted(old(paths)@),
    ensures
        paths_sorted(final(paths)@),
        has_path_bytes(final(paths)@, path_bytes(*p)),
        forall|i: int|
            0 <= i < old(paths)@.len() ==> has_path_bytes(
                final(paths)@,
                path_bytes(#[trigger] old(paths)@[i]),
            ),
        forall|i: int|
            0 <= i < final(paths)@.len() ==> (path_bytes(#[trigger] final(paths)@[i]) == path_bytes(
                *p,
            ) || has_path_bytes(old(paths)@, path_bytes(final(paths)@[i]))),
{
    let n = paths.len();
    let mut i: usize = 0;
    while i < n
        invariant
            n == paths@.len(),
            i <= n,
            *paths == *old(paths),
            paths_sorted(paths@),
            forall|j: int| 0 <= j < i ==> lex_bytes_lt(path_bytes(#[trigger] paths@[j]), path_bytes(*p)),
        ensures
            i == n || lex_bytes_lt(path_bytes(*p), path_bytes(paths@[i as int])),
        decreases n - i,
    {
        if path_eq(&paths[i], p) {
            proof {
                assert(has_path_bytes(paths@, path_bytes(*p)));
                assert(forall|k: int|
                    0 <= k < paths@.len() ==> has_path_bytes(
                        paths@,
                        path_bytes(#[trigger] paths@[k]),
                    ));
            }
            return ;
        }
        if !path_lt(&paths[i], p) {
            proof {
                lemma_lex_trichotomy(path_bytes(paths@[i as int]), path_bytes(*p));
            }
            break ;
        }
        i = i + 1;
    }
    let ghost q0 = paths@;
    let ghost pos = i as int;
    paths.insert(i, p.clone());
    proof {
        assert(path_bytes(paths@[pos]) == path_bytes(*p));
        assert forall|a: int, b: int| 0 <= a < b < paths@.len() implies lex_bytes_lt(
            path_bytes(#[trigger] paths@[a]),
            path_bytes(#[trigger] paths@[b]),
        ) by {
            if a < pos && b == pos {
            } else if a == pos && b > pos {
                if b - 1 > pos {
                    lemma_lex_transitive(
                        path_bytes(*p),
                        path_bytes(q0[pos]),
                        path_bytes(q0[b - 1]),
                    );
                }
            } else if a < pos && b > pos {
            }
        }
        assert(has_path_bytes(paths@, path_bytes(*p)));
        assert forall|k: int| 0 <= k < q0.len() implies has_path_bytes(
            paths@,
            path_bytes(#[trigger] q0[k]),
        ) by {
            if k < pos {
                assert(path_bytes(paths@[k]) == path_bytes(q0[k]));
            } else {
                assert(path_bytes(paths@[k + 1]) == path_bytes(q0[k]));
            }
        }
        assert forall|k: int| 0 <= k < paths@.len() implies (path_bytes(#[trigger] paths@[k])
            == path_bytes(*p) || has_path_bytes(q0, path_bytes(paths@[k]))) by {
            if k < pos {
                assert(path_bytes(q0[k]) == path_bytes(paths@[k]));
            } else if k > pos {
                assert(path_bytes(q0[k - 1]) == path_bytes(paths@[k]));
            }
        }
    }
}

/// The distinct paths of a history response, in increasing byte order.
pub fn history_paths(chunks: &Vec<HistoryResponseChunk>) -> (ps: Vec<String>)
    ensures
        paths_sorted(ps@),
        forall|j: int|
            0 <= j < chunks@.len() ==> has_path_bytes(ps@, path_bytes((#[trigger] chunks@[j]).path)),
        paths_from_chunks(ps@, chunks@),
{
    let n = chunks.len();
    let mut ps: Vec<String> = Vec::new();
    let mut i: usize = 0;
    while i < n
        invariant
            n == chunks@.len(),
            i <= n,
            paths_sorted(ps@),
            forall|j: int|
                0 <= j < i ==> has_path_bytes(ps@, path_bytes((#[trigger] chunks@[j]).path)),
            paths_from_chunks(ps@, chunks@),
        decreases n - i,
    {
        let ghost ps0 = ps@;
        insert_path_sorted(&mut ps, &chunks[i].path);
        proof {
            assert forall|j: int| 0 <= j < i + 1 implies has_path_bytes(
                ps@,
                path_bytes((#[trigger] chunks@[j]).path),
            ) by {
                if j < i {
                    let k = choose|k: int|
                        0 <= k < ps0.len() && path_bytes(ps0[k]) == path_bytes(chunks@[j].path);
                    assert(has_path_bytes(ps@, path_bytes(ps0[k])));
                }
            }
            assert forall|k: int| 0 <= k < ps@.len() implies exists|j: int|
                0 <= j < chunks@.len() && path_bytes(chunks@[j].path) == path_bytes(
                    #[trigger] ps@[k],
                ) by {
                if path_bytes(ps@[k]) == path_bytes(chunks@[i as int].path) {
                    assert(path_bytes(chunks@[i as int].path) == path_bytes(ps@[k]));
                } else {
                    let k0 = choose|k0: int|
                        0 <= k0 < ps0.len() && path_bytes(ps0[k0]) == path_bytes(ps@[k]);
                    assert(paths_from_chunks(ps0, chunks@));
                    let j = choose|j: int|
                        0 <= j < chunks@.len() && path_bytes(chunks@[j].path) == path_bytes(
                            ps0[k0],
                        );
                    assert(path_bytes(chunks@[j].path) == path_bytes(ps@[k]));
                }
            }
            assert(paths_from_chunks(ps@, chunks@));
        }
        i = i + 1;
    }
    ps
}

/// Collects every history entry for one path, in response order.
pub fn collect_entries_for(chunks: &Vec<HistoryResponseChunk>, path: &String) -> (es: Vec<
    WireHistoryEntry,
>)
    ensures
        entries_view(es@) == entries_for(chunks@, path@),
{
    let n = chunks.len();
    let mut es: Vec<WireHistoryEntry> = Vec::new();
    let mut i: usize = 0;
    while i < n
        invariant
            n == chunks@.len(),
            i <= n,
            entries_view(es@) == entries_for(chunks@.subrange(0, i as int), path@),
        decreases n - i,
    {
        proof {
            assert(chunks@.subrange(0, i + 1).drop_last() =~= chunks@.subrange(0, i as int));
            assert(chunks@.subrange(0, i + 1).last() == chunks@[i as int]);
        }
        if chunks[i].path == *path {
            let m = chunks[i].entries.len();
            let mut k: usize = 0;
            while k < m
                invariant
                    n == chunks@.len(),
                    i < n,
                    m == chunks@[i as int].entries@.len(),
                    k <= m,
                    entries_view(es@) == entries_for(chunks@.subrange(0, i as int), path@)
                        + entries_view(chunks@[i as int].entries@.subrange(0, k as int)),
                decreases m - k,
            {
                let ghost es0 = es@;
                es.push(chunks[i].entries[k].duplicate());
                proof {
                    let a = entries_for(chunks@.subrange(0, i as int), path@);
                    let b0 = chunks@[i as int].entries@.subrange(0, k as int);
                    let b1 = chunks@[i as int].entries@.subrange(0, k + 1);
                    let ek = chunks@[i as int].entries@[k as int];
                    assert(b1 =~= b0.push(ek));
                    lemma_entries_view_push(b0, ek);
                    let d = es@.last();
                    assert(es@ == es0.push(d));
                    lemma_entries_view_push(es0, d);
                    assert(d@ == ek@);
                    assert(entries_view(es@) =~= a + entries_view(b1));
                }
                k = k + 1;
            }
            proof {
                assert(chunks@[i as int].entries@.subrange(0, m as int) =~= chunks@[i as int].entries@);
                assert(entries_view(es@) =~= entries_for(chunks@.subrange(0, i + 1), path@));
            }
        } else {
            proof {
                assert(entries_view(es@) =~= entries_for(chunks@.subrange(0, i + 1), path@));
            }
        }
        i = i + 1;
    }
    proof {
        assert(chunks@.subrange(0, n as int) =~= chunks@);
    }
    es
}

/// Whether some chunk carries the path.
pub open spec fn chunk_has_path(chunks: Seq<HistoryResponseChunk>, path: Seq<char>) -> bool {
    exists|j: int| 0 <= j < chunks.len() && (#[trigger] chunks[j]).path@ == path
}

/// Decides whether some chunk carries the path.
fn chunk_with_path(chunks: &Vec<HistoryResponseChunk>, path: &String) -> (found: bool)
    ensures
        found == chunk_has_path(chunks@, path@),
{
    let n = chunks.len();
    let mut j: usize = 0;
    while j < n
        invariant
            n == chunks@.len(),
            j <= n,
            forall|m: int| 0 <= m < j ==> (#[trigger] chunks@[m]).path@ != path@,
        decreases n - j,
    {
        if chunks[j].path == *path {
            return true;
        }
        j = j + 1;
    }
    false
}

/// The history of one path: the path and all of its entries, in response
/// order.
#[derive(Debug)]
pub struct HistoryBlock {
    pub path: String,
    pub entries: Vec<WireHistoryEntry>,
}

/// A history inspection request: list the files, or show the history of one
/// file (or of every file).
#[derive(Debug)]
pub enum HistoryArgs {
    Ls,
    Show(Option<String>),
}

/// What a history inspection yields.
#[derive(Debug)]
pub enum HistoryOutput {
    /// The distinct paths, in increasing byte order.
    Paths(Vec<String>),
    /// The requested file's history, or nothing when the response does not
    /// mention the file.
    Single(Option<HistoryBlock>),
    /// Every file's history, one block per distinct path in increasing byte
    /// order.
    Full(Vec<HistoryBlock>),
}

/// Blocks in strictly increasing byte order of their paths.
pub open spec fn blocks_sorted(blocks: Seq<HistoryBlock>) -> bool {
    forall|a: int, b: int|
        0 <= a < b < blocks.len() ==> lex_bytes_lt(
            path_bytes((#[trigger] blocks[a]).path),
            path_bytes((#[trigger] blocks[b]).path),
        )
}

/// Whether the block at `k` carries a path that occurs in the response.
pub open spec fn block_path_in_chunks(
    blocks: Seq<HistoryBlock>,
    chunks: Seq<HistoryResponseChunk>,
    k: int,
) -> bool {
    exists|j: int|
        0 <= j < chunks.len() && path_bytes((#[trigger] chunks[j]).path) == path_bytes(
            blocks[k].path,
        )
}

/// Whether every block's path occurs in the response.
pub open spec fn blocks_from_chunks(
    blocks: Seq<HistoryBlock>,
    chunks: Seq<HistoryResponseChunk>,
) -> bool {
    forall|k: int| 0 <= k < blocks.len() ==> #[trigger] block_path_in_chunks(blocks, chunks, k)
}

/// Whether the response path at `j` has a block.
pub open spec fn chunk_path_in_blocks(
    blocks: Seq<HistoryBlock>,
    chunks: Seq<HistoryResponseChunk>,
    j: int,
) -> bool {
    exists|k: int|
        0 <= k < blocks.len() && path_bytes((#[trigger] blocks[k]).path) == path_bytes(
            chunks[j].path,
        )
}

/// Whether every response path has its block.
pub open spec fn chunks_covered(
    blocks: Seq<HistoryBlock>,
    chunks: Seq<HistoryResponseChunk>,
) -> bool {
    forall|j: int| 0 <= j < chunks.len() ==> #[trigger] chunk_path_in_blocks(blocks, chunks, j)
}

/// Whether every block carries exactly its path's entries, in response
/// order.
pub open spec fn blocks_grouped(
    blocks: Seq<HistoryBlock>,
    chunks: Seq<HistoryResponseChunk>,
) -> bool {
    forall|k: int|
        0 <= k < blocks.len() ==> entries_view((#[trigger] blocks[k]).entries@) == entries_for(
            chunks,
            blocks[k].path@,
        )
}

/// The whole response grouped by file: one block per distinct path, in
/// increasing byte order, each with that path's entries in response order.
pub fn history_full(chunks: &Vec<HistoryResponseChunk>) -> (blocks: Vec<HistoryBlock>)
    ensures
        blocks_sorted(blocks@),
        blocks_from_chunks(blocks@, chunks@),
        chunks_covered(blocks@, chunks@),
        blocks_grouped(blocks@, chunks@),
{
    let ps = history_paths(chunks);
    let n = ps.len();
    let mut blocks: Vec<HistoryBlock> = Vec::new();
    let mut k: usize = 0;
    while k < n
        invariant
            n == ps@.len(),
            k <= n,
            blocks@.len() == k,
            paths_sorted(ps@),
            paths_from_chunks(ps@, chunks@),
            forall|j: int|
                0 <= j < chunks@.len() ==> has_path_bytes(
                    ps@,
                    path_bytes((#[trigger] chunks@[j]).path),
                ),
            forall|m: int|
                0 <= m < k ==> (#[trigger] blocks@[m]).path@ == ps@[m]@ && entries_view(
                    blocks@[m].entries@,
                ) == entries_for(chunks@, blocks@[m].path@),
        decreases n - k,
    {
        let entries = collect_entries_for(chunks, &ps[k]);
        blocks.push(HistoryBlock { path: ps[k].clone(), entries });
        k = k + 1;
    }
    proof {
        assert(forall|m: int|
            0 <= m < blocks@.len() ==> path_bytes((#[trigger] blocks@[m]).path) == path_bytes(
                ps@[m],
            ));
        assert forall|a: int, b: int| 0 <= a < b < blocks@.len() implies lex_bytes_lt(
            path_bytes((#[trigger] blocks@[a]).path),
            path_bytes((#[trigger] blocks@[b]).path),
        ) by {
            assert(lex_bytes_lt(path_bytes(ps@[a]), path_bytes(ps@[b])));
        }
        assert forall|m: int| 0 <= m < blocks@.len() implies #[trigger] block_path_in_chunks(
            blocks@,
            chunks@,
            m,
        ) by {
            lemma_paths_from_chunks_index(ps@, chunks@, m);
            let j = choose|j: int|
                0 <= j < chunks@.len() && path_bytes(chunks@[j].path) == path_bytes(ps@[m]);
            assert(path_bytes(chunks@[j].path) == path_bytes(blocks@[m].path));
        }
        assert forall|j: int| 0 <= j < chunks@.len() implies #[trigger] chunk_path_in_blocks(
            blocks@,
            chunks@,
            j,
        ) by {
            let m = choose|m: int|
                0 <= m < ps@.len() && path_bytes(#[trigger] ps@[m]) == path_bytes(
                    chunks@[j].path,
                );
            assert(path_bytes(blocks@[m].path) == path_bytes(chunks@[j].path));
        }
        assert(blocks_sorted(blocks@));
        assert(blocks_from_chunks(blocks@, chunks@));
        assert(chunks_covered(blocks@, chunks@));
        assert(blocks_grouped(blocks@, chunks@));
    }
    blocks
}

/// Inspects the history chunks of a response.
///
/// Listing returns the distinct paths in increasing byte order. Showing one
/// file returns its collected entries in response order, or nothing when the
/// response does not mention it. Showing everything returns one block per
/// distinct path, in increasing byte order, each with that path's entries in
/// response order.
pub fn cmd_history(args: &HistoryArgs, chunks: &Vec<HistoryResponseChunk>) -> (r: HistoryOutput)
    ensures
        ({
            match args {
                HistoryArgs::Ls => {
                    &&& r matches HistoryOutput::Paths(ps)
                    &&& paths_sorted(ps@)
                    &&& paths_from_chunks(ps@, chunks@)
                    &&& forall|j: int|
                        0 <= j < chunks@.len() ==> has_path_bytes(
                            ps@,
                            path_bytes((#[trigger] chunks@[j]).path),
                        )
                },
                HistoryArgs::Show(Some(f)) => {
                    if chunk_has_path(chunks@, f@) {
                        r matches HistoryOutput::Single(Some(b)) && b.path@ == f@ && entries_view(
                            b.entries@,
                        ) == entries_for(chunks@, f@)
                    } else {
                        r matches HistoryOutput::Single(b) && b is None
                    }
                },
                HistoryArgs::Show(None) => {
                    &&& r matches HistoryOutput::Full(blocks)
                    &&& blocks_sorted(blocks@)
                    &&& blocks_from_chunks(blocks@, chunks@)
                    &&& chunks_covered(blocks@, chunks@)
                    &&& blocks_grouped(blocks@, chunks@)
                },
            }
        }),
{
    match args {
        HistoryArgs::Ls => HistoryOutput::Paths(history_paths(chunks)),
        HistoryArgs::Show(Some(f)) => {
            if chunk_with_path(chunks, f) {
                let entries = collect_entries_for(chunks, f);
                HistoryOutput::Single(Some(HistoryBlock { path: f.clone(), entries }))
            } else {
                HistoryOutput::Single(None)
            }
        },
        HistoryArgs::Show(None) => HistoryOutput::Full(history_full(chunks)),
    }
}

/// A data inspection request: list every key, extract one entry's content,
/// or check every entry's validity.
#[derive(Debug)]
pub enum DataArgs {
    Ls,
    Cat(Key),
    Check,
}

/// What a data inspection yields.
#[derive(Debug)]
pub enum DataOutput {
    /// One key per entry, in response order.
    Listing(Vec<Key>),
    /// The extracted content.
    Content(Vec<u8>),
    /// The flagged entries, in response order: each key with its verdict.
    Issues(Vec<(Key, DataValidity)>),
}

/// The entries a check flags: those whose content is not valid, in order.
pub open spec fn flagged(es: Seq<DataEntry>) -> Seq<DataEntry>
    decreases es.len(),
{
    if es.len() == 0 {
        Seq::empty()
    } else {
        let rest = flagged(es.drop_last());
        if es.last().validity is Valid {
            rest
        } else {
            rest.push(es.last())
        }
    }
}

/// Whether some entry carries the key.
pub open spec fn has_entry(es: Seq<DataEntry>, key: Key) -> bool {
    exists|i: int| 0 <= i < es.len() && same_key(es[i].key, key)
}

/// The position of the first entry carrying the key; meaningful when one
/// exists.
pub open spec fn first_match(es: Seq<DataEntry>, key: Key) -> int
    decreases es.len(),
{
    if es.len() == 0 {
        0
    } else if same_key(es[0].key, key) {
        0
    } else {
        1 + first_match(es.skip(1), key)
    }
}

/// A hit with no earlier hit is the first match.
proof fn lemma_first_match(es: Seq<DataEntry>, key: Key, i: int)
    requires
        0 <= i < es.len(),
        same_key(es[i].key, key),
        forall|j: int| 0 <= j < i ==> !same_key(es[j].key, key),
    ensures
        first_match(es, key) == i,
    decreases i,
{
    if i > 0 {
        assert(forall|j: int| 0 <= j < i - 1 ==> es.skip(1)[j] == es[j + 1]);
        lemma_first_match(es.skip(1), key, i - 1);
    }
}

/// Inspects the data entries of a response.
///
/// Listing returns each entry's key in order. Extraction returns the content
/// of the first entry matching the requested key, fails with the fixed
/// message when no entry matches, and fails with the verdict's message when
/// the matching entry's content is disqualified. Checking returns each
/// flagged entry with its verdict, in order.
pub fn cmd_data(args: &DataArgs, entries: &Vec<DataEntry>) -> (r: Result<DataOutput, String>)
    ensures
        ({
            let es = entries@;
            match args {
                DataArgs::Ls => r matches Ok(DataOutput::Listing(keys)) && keys@.len() == es.len()
                    && (forall|i: int|
                    0 <= i < es.len() ==> same_key(#[trigger] keys@[i], es[i].key)),
                DataArgs::Cat(target) => {
                    if has_entry(es, *target) {
                        let i = first_match(es, *target);
                        &&& 0 <= i < es.len()
                        &&& same_key(es[i].key, *target)
                        &&& match es[i].validity {
                            DataValidity::Valid => r matches Ok(DataOutput::Content(d)) && d@
                                == es[i].data@,
                            DataValidity::Redacted => r matches Err(m) && m@
                                == "contents redacted"@,
                            DataValidity::MaybeHybridManifest(e) => r matches Err(m) && m@ == e@,
                            DataValidity::Corrupt(e) => r matches Err(m) && m@ == e@,
                        }
                    } else {
                        r matches Err(m) && m@ == "Key not found"@
                    }
                },
                DataArgs::Check => r matches Ok(DataOutput::Issues(issues)) && issues@.len()
                    == flagged(es).len() && (forall|i: int|
                    0 <= i < issues@.len() ==> same_key(
                        (#[trigger] issues@[i]).0,
                        flagged(es)[i].key,
                    ) && same_validity(issues@[i].1, flagged(es)[i].validity)),
            }
        }),
{
    match args {
        DataArgs::Ls => {
            let n = entries.len();
            let mut keys: Vec<Key> = Vec::new();
            let mut i: usize = 0;
            while i < n
                invariant
                    n == entries@.len(),
                    i <= n,
                    keys@.len() == i,
                    forall|j: int| 0 <= j < i ==> same_key(#[trigger] keys@[j], entries@[j].key),
                decreases n - i,
            {
                keys.push(entries[i].key.duplicate());
                i = i + 1;
            }
            Ok(DataOutput::Listing(keys))
        },
        DataArgs::Cat(target) => {
            let n = entries.len();
            let mut i: usize = 0;
            while i < n
                invariant
                    n == entries@.len(),
                    i <= n,
                    *args matches DataArgs::Cat(t) && t == *target,
                    forall|j: int| 0 <= j < i ==> !same_key(entries@[j].key, *target),
                decreases n - i,
            {
                if entries[i].key.matches(target) {
                    let out: Result<DataOutput, String> = match &entries[i].validity {
                        DataValidity::Valid => Ok(DataOutput::Content(entries[i].data.clone())),
                        DataValidity::Redacted => Err("contents redacted".to_owned()),
                        DataValidity::MaybeHybridManifest(e) => Err(e.clone()),
                        DataValidity::Corrupt(e) => Err(e.clone()),
                    };
                    proof {
                        assert(has_entry(entries@, *target));
                        lemma_first_match(entries@, *target, i as int);
                    }
                    return out;
                }
                i = i + 1;
            }
            proof {
                assert(!has_entry(entries@, *target));
            }
            Err("Key not found".to_owned())
        },
        DataArgs::Check => {
            let n = entries.len();
            let mut issues: Vec<(Key, DataValidity)> = Vec::new();
            let mut i: usize = 0;
            while i < n
                invariant
                    n == entries@.len(),
                    i <= n,
                    issues@.len() == flagged(entries@.subrange(0, i as int)).len(),
                    forall|j: int|
                        0 <= j < issues@.len() ==> same_key(
                            (#[trigger] issues@[j]).0,
                            flagged(entries@.subrange(0, i as int))[j].key,
                        ) && same_validity(
                            issues@[j].1,
                            flagged(entries@.subrange(0, i as int))[j].validity,
                        ),
                decreases n - i,
            {
                proof {
                    assert(entries@.subrange(0, i + 1).drop_last() =~= entries@.subrange(
                        0,
                        i as int,
                    ));
                    assert(entries@.subrange(0, i + 1).last() == entries@[i as int]);
                }
                match &entries[i].validity {
                    DataValidity::Valid => {},
                    _ => {
                        issues.push((entries[i].key.duplicate(), entries[i].validity.duplicate()));
                    },
                }
                i = i + 1;
            }
            proof {
                assert(entries@.subrange(0, n as int) =~= entries@);
            }
            Ok(DataOutput::Issues(issues))
        },
    }
}

} // verus!
