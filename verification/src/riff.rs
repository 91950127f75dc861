//! The source-waveform boundary: a parser for the RIFF chunk tree that a
//! waveform file is made of. A chunk is four tag bytes, a 32-bit little-endian
//! payload length (rounded up to even for the on-disk extent), and either a
//! raw payload or — for the `RIFF` and `LIST` forms — a form-type tag and a
//! run of child chunks. The parser is verified against a recursive
//! specification of exactly that grammar: it succeeds if and only if the
//! bytes parse, and what it builds is the parse.
use vstd::prelude::*;
use vstd::slice::{slice_subrange, slice_to_vec};
use vstd::string::StringSliceAdditionalSpecFns;
use crate::bytes::le32_at;
use crate::bytes::read_le32;
use crate::CodecError;

verus! {

broadcast use vstd::std_specs::vec::axiom_vec_decreases_to_view;

/// The parse of one chunk: a leaf with its payload, or a container form with
/// its ordered children.
pub enum RiffTree {
    Leaf { tag: Seq<u8>, length: nat, data: Seq<u8> },
    List { tag: Seq<u8>, length: nat, form_type: Seq<u8>, kids: Seq<RiffTree> },
}

/// The on-disk extent a stored length claims: rounded up to even.
pub open spec fn padded_len(l: nat) -> nat {
    if l % 2 == 1 {
        (l + 1) as nat
    } else {
        l
    }
}

/// ASCII "RIFF".
pub open spec fn riff_tag() -> Seq<u8> {
    seq![0x52u8, 0x49u8, 0x46u8, 0x46u8]
}

/// ASCII "LIST".
pub open spec fn list_tag() -> Seq<u8> {
    seq![0x4Cu8, 0x49u8, 0x53u8, 0x54u8]
}

/// The two container forms.
pub open spec fn is_list_tag(t: Seq<u8>) -> bool {
    t == riff_tag() || t == list_tag()
}

/// The padded length a tree node claims on disk.
pub open spec fn tree_length(t: RiffTree) -> nat {
    match t {
        RiffTree::Leaf { length, .. } => length,
        RiffTree::List { length, .. } => length,
    }
}

/// The parse of the chunk starting at the first byte of `s` (the chunk may end
/// before `s` does), or `None` where the bytes do not parse.
pub open spec fn parse_tree(s: Seq<u8>) -> Option<RiffTree>
    decreases s.len(), s.len() + 1int,
{
    if s.len() < 8 {
        None
    } else {
        let tag = s.subrange(0, 4);
        let plen = padded_len(le32_at(s, 4) as nat);
        if 8 + plen > s.len() {
            None
        } else if is_list_tag(tag) {
            if s.len() < 12 {
                None
            } else {
                match parse_kids(s, 12, 8 + plen as int) {
                    Some(kids) => Some(
                        RiffTree::List {
                            tag,
                            length: plen,
                            form_type: s.subrange(8, 12),
                            kids,
                        },
                    ),
                    None => None,
                }
            }
        } else {
            Some(RiffTree::Leaf { tag, length: plen, data: s.subrange(8, 8 + plen as int) })
        }
    }
}

/// The parses of consecutive child chunks from `off` until the first offset at
/// or past `end`, or `None` where any child fails to parse.
pub open spec fn parse_kids(s: Seq<u8>, off: int, end: int) -> Option<Seq<RiffTree>>
    decreases s.len(), (if end - off >= 0 { end - off } else { 0 }),
    when 0 < off <= s.len()
{
    if off >= end {
        Some(Seq::empty())
    } else {
        match parse_tree(s.subrange(off, s.len() as int)) {
            None => None,
            Some(kid) => {
                match parse_kids(s, off + 8 + tree_length(kid), end) {
                    None => None,
                    Some(rest) => Some(seq![kid] + rest),
                }
            },
        }
    }
}

/// A chunk that parses fits inside the bytes it was parsed from.
pub proof fn lemma_parse_extent(s: Seq<u8>)
    requires
        parse_tree(s) is Some,
    ensures
        8 + tree_length(parse_tree(s).unwrap()) <= s.len(),
{
}

/// One parsed chunk of the tree. `data` holds the payload of a leaf chunk
/// (padded to its even on-disk extent); container chunks hold their children
/// and form type instead.
pub struct RiffChunk {
    /// The four tag bytes.
    pub tag: Vec<u8>,
    /// The even on-disk payload extent: the stored length, rounded up.
    pub length: usize,
    pub data: Option<Vec<u8>>,
    pub children: Option<Vec<RiffChunk>>,
    pub form_type: Option<Vec<u8>>,
}

/// What a built chunk stands for, as a parse tree.
pub open spec fn tree_view(c: RiffChunk) -> RiffTree
    decreases c,
{
    match c.children {
        Some(kids) => RiffTree::List {
            tag: c.tag@,
            length: c.length as nat,
            form_type: opt_bytes_view(c.form_type),
            kids: kids_view(kids@),
        },
        None => RiffTree::Leaf {
            tag: c.tag@,
            length: c.length as nat,
            data: opt_bytes_view(c.data),
        },
    }
}

/// The bytes an optional field holds.
pub open spec fn opt_bytes_view(o: Option<Vec<u8>>) -> Seq<u8> {
    match o {
        Some(v) => v@,
        None => Seq::empty(),
    }
}

/// The views of a run of built chunks.
pub open spec fn kids_view(v: Seq<RiffChunk>) -> Seq<RiffTree>
    decreases v,
{
    if v.len() == 0 {
        Seq::empty()
    } else {
        seq![tree_view(v[0])] + kids_view(v.drop_first())
    }
}

/// A built chunk is internally consistent: leaves hold a payload and nothing
/// else, container forms hold a form type and children and no payload, and
/// every child is consistent in turn.
pub open spec fn chunk_inv(c: RiffChunk) -> bool
    decreases c,
{
    match c.children {
        Some(kids) => c.data is None && c.form_type is Some && (forall|k: int|
            0 <= k < kids@.len() ==> chunk_inv(#[trigger] kids@[k])),
        None => c.data is Some && c.form_type is None,
    }
}

/// Appending a chunk appends its view.
proof fn lemma_kids_view_push(v: Seq<RiffChunk>, c: RiffChunk)
    ensures
        kids_view(v.push(c)) == kids_view(v) + seq![tree_view(c)],
    decreases v.len(),
{
    if v.len() == 0 {
        assert(v.push(c).drop_first() =~= Seq::<RiffChunk>::empty());
        assert(v.push(c)[0] == c);
        assert(kids_view(v) == Seq::<RiffTree>::empty());
        assert(kids_view(v.push(c).drop_first()) == Seq::<RiffTree>::empty());
        assert(kids_view(v.push(c)) == seq![tree_view(c)] + Seq::<RiffTree>::empty());
        assert(kids_view(v.push(c)) =~= kids_view(v) + seq![tree_view(c)]);
    } else {
        assert(v.push(c)[0] == v[0]);
        assert(v.push(c).drop_first() =~= v.drop_first().push(c));
        lemma_kids_view_push(v.drop_first(), c);
        assert(kids_view(v.push(c)) =~= kids_view(v) + seq![tree_view(c)]);
    }
}

impl RiffChunk {
    /// Parses the chunk starting at the first byte of `raw`. Succeeds exactly
    /// when the bytes parse as the grammar demands, and builds exactly the
    /// parse; anything else — bytes ending early, a length claiming more than
    /// is there — is `Truncated`.
    #[verifier::loop_isolation(false)]
    pub fn new(raw: &[u8]) -> (r: Result<RiffChunk, CodecError>)
        ensures
            match r {
                Ok(c) => parse_tree(raw@) == Some(tree_view(c)) && chunk_inv(c),
                Err(e) => e == CodecError::Truncated && parse_tree(raw@) is None,
            },
        decreases raw@.len(),
    {
        if raw.len() < 8 {
            return Err(CodecError::Truncated);
        }
        let tag = slice_to_vec(slice_subrange(raw, 0, 4));
        assert(tag@ =~= raw@.subrange(0, 4));
        let true_length = read_le32(raw, 4);
        let length64: u64 = if true_length % 2 == 1 {
            true_length as u64 + 1
        } else {
            true_length as u64
        };
        assert(length64 == padded_len(le32_at(raw@, 4) as nat));
        if 8 + length64 > raw.len() as u64 {
            return Err(CodecError::Truncated);
        }
        let length = length64 as usize;
        let is_list = (tag[0] == 0x52 && tag[1] == 0x49 && tag[2] == 0x46 && tag[3] == 0x46) || (
        tag[0] == 0x4C && tag[1] == 0x49 && tag[2] == 0x53 && tag[3] == 0x54);
        proof {
            if is_list {
                if tag@[0] == 0x52 {
                    assert(tag@ =~= riff_tag());
                } else {
                    assert(tag@ =~= list_tag());
                }
            } else {
                if tag@ == riff_tag() {
                    assert(tag@[0] == riff_tag()[0] && tag@[1] == riff_tag()[1] && tag@[2]
                        == riff_tag()[2] && tag@[3] == riff_tag()[3]);
                }
                if tag@ == list_tag() {
                    assert(tag@[0] == list_tag()[0] && tag@[1] == list_tag()[1] && tag@[2]
                        == list_tag()[2] && tag@[3] == list_tag()[3]);
                }
            }
        }
        if is_list {
            if raw.len() < 12 {
                return Err(CodecError::Truncated);
            }
            let form_type = slice_to_vec(slice_subrange(raw, 8, 12));
            assert(form_type@ =~= raw@.subrange(8, 12));
            let end = 8 + length;
            let mut children: Vec<RiffChunk> = Vec::new();
            let mut offset: usize = 12;
            proof {
                assert(kids_view(children@) =~= Seq::<RiffTree>::empty());
            }
            while offset < end
                invariant
                    12 <= offset,
                    offset <= raw@.len(),
                    end == 8 + length,
                    end <= raw@.len(),
                    raw@.len() <= usize::MAX,
                    forall|k: int| 0 <= k < children@.len() ==> chunk_inv(#[trigger] children@[k]),
                    parse_kids(raw@, 12, end as int) == (match parse_kids(
                        raw@,
                        offset as int,
                        end as int,
                    ) {
                        Some(rest) => Some(kids_view(children@) + rest),
                        None => None::<Seq<RiffTree>>,
                    }),
                decreases (if end >= offset { end - offset } else { 0 }),
            {
                let child = match RiffChunk::new(slice_subrange(raw, offset, raw.len())) {
                    Ok(c) => c,
                    Err(e) => {
                        return Err(e);
                    },
                };
                proof {
                    lemma_parse_extent(raw@.subrange(offset as int, raw@.len() as int));
                }
                let step = child.length;
                let ghost pre_kids = children@;
                children.push(child);
                proof {
                    lemma_kids_view_push(pre_kids, child);
                    let rest_all = parse_kids(raw@, offset as int, end as int);
                    let rest_next = parse_kids(raw@, offset as int + 8 + step as int, end as int);
                    match rest_next {
                        Some(rest) => {
                            assert(rest_all == Some(seq![tree_view(child)] + rest));
                            assert(kids_view(pre_kids) + (seq![tree_view(child)] + rest)
                                =~= kids_view(children@) + rest);
                        },
                        None => {
                            assert(rest_all is None);
                        },
                    }
                }
                offset = offset + 8 + step;
            }
            let c = RiffChunk {
                tag,
                length,
                data: None,
                children: Some(children),
                form_type: Some(form_type),
            };
            proof {
                assert(parse_kids(raw@, offset as int, end as int) == Some(
                    Seq::<RiffTree>::empty(),
                ));
                assert(kids_view(children@) + Seq::<RiffTree>::empty() =~= kids_view(children@));
                assert(tree_view(c) == RiffTree::List {
                    tag: tag@,
                    length: length as nat,
                    form_type: form_type@,
                    kids: kids_view(children@),
                });
            }
            Ok(c)
        } else {
            let data = slice_to_vec(slice_subrange(raw, 8, 8 + length));
            assert(data@ =~= raw@.subrange(8, 8 + length as int));
            let c = RiffChunk { tag, length, data: Some(data), children: None, form_type: None };
            Ok(c)
        }
    }

    /// The first child carrying the given four-byte tag, scanned in order.
    /// Only container chunks have children.
    #[verifier::loop_isolation(false)]
    pub fn child(&self, tag: &str) -> (r: Option<&RiffChunk>)
        requires
            self.children is Some,
        ensures
            ({
                let kids = self.children.unwrap()@;
                match r {
                    Some(c) => exists|i: int|
                        0 <= i < kids.len() && kids[i] == *c && (#[trigger] kids[i]).tag@
                            == tag.spec_bytes() && (forall|k: int|
                            0 <= k < i ==> (#[trigger] kids[k]).tag@ != tag.spec_bytes()),
                    None => forall|k: int|
                        0 <= k < kids.len() ==> (#[trigger] kids[k]).tag@ != tag.spec_bytes(),
                }
            }),
    {
        let tb = tag.as_bytes();
        let kids = match &self.children {
            Some(v) => v,
            None => {
                return None;
            },
        };
        let n = kids.len();
        for i in 0..n
            invariant
                n == kids@.len(),
                self.children == Some(*kids),
                forall|k: int| 0 <= k < i ==> (#[trigger] kids@[k]).tag@ != tb@,
        {
            if bytes_eq(&kids[i].tag, tb) {
                return Some(&kids[i]);
            }
        }
        None
    }
}

/// Whether a vector holds exactly the given bytes.
#[verifier::loop_isolation(false)]
pub(crate) fn bytes_eq(a: &Vec<u8>, b: &[u8]) -> (r: bool)
    ensures
        r == (a@ == b@),
{
    if a.len() != b.len() {
        proof {
            if a@ == b@ {
                assert(a@.len() == b@.len());
            }
        }
        return false;
    }
    for i in 0..a.len()
        invariant
            a@.len() == b@.len(),
            forall|k: int| 0 <= k < i ==> a@[k] == b@[k],
    {
        if a[i] != b[i] {
            proof {
                if a@ == b@ {
                    assert(a@[i as int] == b@[i as int]);
                }
            }
            return false;
        }
    }
    proof {
        assert(a@ =~= b@);
    }
    true
}

/// The tag of a parsed chunk.
pub open spec fn tree_tag(t: RiffTree) -> Seq<u8> {
    match t {
        RiffTree::Leaf { tag, .. } => tag,
        RiffTree::List { tag, .. } => tag,
    }
}

/// The payload of a parsed chunk: only leaves carry one.
pub open spec fn tree_data(t: RiffTree) -> Option<Seq<u8>> {
    match t {
        RiffTree::Leaf { data, .. } => Some(data),
        RiffTree::List { .. } => None,
    }
}

/// The children of a parsed chunk: only container forms carry them.
pub open spec fn tree_kids(t: RiffTree) -> Option<Seq<RiffTree>> {
    match t {
        RiffTree::Leaf { .. } => None,
        RiffTree::List { kids, .. } => Some(kids),
    }
}

/// ASCII "fmt ": the subchunk carrying channel count and sample rate.
pub open spec fn fmt_tag() -> Seq<u8> {
    seq![0x66u8, 0x6Du8, 0x74u8, 0x20u8]
}

/// ASCII "data": the subchunk carrying the interleaved samples.
pub open spec fn data_tag() -> Seq<u8> {
    seq![0x64u8, 0x61u8, 0x74u8, 0x61u8]
}

/// The first child carrying a tag, in order.
pub open spec fn find_kid(kids: Seq<RiffTree>, tag: Seq<u8>) -> Option<RiffTree>
    decreases kids.len(),
{
    if kids.len() == 0 {
        None
    } else if tree_tag(kids[0]) == tag {
        Some(kids[0])
    } else {
        find_kid(kids.drop_first(), tag)
    }
}

/// A run of built chunks views element by element.
pub proof fn lemma_kids_view_index(v: Seq<RiffChunk>)
    ensures
        kids_view(v).len() == v.len(),
        forall|k: int| 0 <= k < v.len() ==> kids_view(v)[k] == tree_view(#[trigger] v[k]),
    decreases v.len(),
{
    if v.len() > 0 {
        lemma_kids_view_index(v.drop_first());
        assert forall|k: int| 0 <= k < v.len() implies kids_view(v)[k] == tree_view(#[trigger] v[k])
        by {
            if k > 0 {
                assert(kids_view(v)[k] == kids_view(v.drop_first())[k - 1]);
                assert(v.drop_first()[k - 1] == v[k]);
            }
        }
    }
}

/// The first exec-level tag match is the first spec-level one.
pub proof fn lemma_find_kid_match(v: Seq<RiffChunk>, tag: Seq<u8>, i: int)
    requires
        0 <= i < v.len(),
        v[i].tag@ == tag,
        forall|k: int| 0 <= k < i ==> (#[trigger] v[k]).tag@ != tag,
    ensures
        find_kid(kids_view(v), tag) == Some(tree_view(v[i])),
    decreases i,
{
    lemma_kids_view_index(v);
    lemma_kids_view_index(v.drop_first());
    assert(kids_view(v)[0] == tree_view(v[0]));
    assert(tree_tag(tree_view(v[0])) == v[0].tag@);
    assert(kids_view(v).drop_first() =~= kids_view(v.drop_first())) by {
        assert forall|k: int| 0 <= k < v.len() - 1 implies kids_view(v).drop_first()[k]
            == kids_view(v.drop_first())[k] by {
            assert(kids_view(v).drop_first()[k] == kids_view(v)[k + 1]);
            assert(v.drop_first()[k] == v[k + 1]);
        }
    }
    if i == 0 {
        assert(find_kid(kids_view(v), tag) == Some(kids_view(v)[0]));
    } else {
        assert(v[0].tag@ != tag);
        assert(forall|k: int| 0 <= k < i - 1 ==> (#[trigger] v.drop_first()[k]).tag@ != tag);
        assert(v.drop_first()[i - 1] == v[i]);
        lemma_find_kid_match(v.drop_first(), tag, i - 1);
    }
}

/// Where no built chunk carries the tag, no parsed one does.
pub proof fn lemma_find_kid_none(v: Seq<RiffChunk>, tag: Seq<u8>)
    requires
        forall|k: int| 0 <= k < v.len() ==> (#[trigger] v[k]).tag@ != tag,
    ensures
        find_kid(kids_view(v), tag) is None,
    decreases v.len(),
{
    lemma_kids_view_index(v);
    if v.len() > 0 {
        assert(kids_view(v)[0] == tree_view(v[0]));
        assert(kids_view(v).drop_first() =~= kids_view(v.drop_first())) by {
            lemma_kids_view_index(v.drop_first());
            assert forall|k: int| 0 <= k < v.len() - 1 implies kids_view(v).drop_first()[k]
                == kids_view(v.drop_first())[k] by {
                assert(kids_view(v).drop_first()[k] == kids_view(v)[k + 1]);
                assert(v.drop_first()[k] == v[k + 1]);
            }
        }
        assert(forall|k: int|
            0 <= k < v.drop_first().len() ==> (#[trigger] v.drop_first()[k]).tag@ != tag) by {
            assert(forall|k: int|
                0 <= k < v.drop_first().len() ==> v.drop_first()[k] == #[trigger] v[k + 1]);
        }
        lemma_find_kid_none(v.drop_first(), tag);
    }
}

} // verus!
