//! A request as it was read, and the query parameters that its target carries.
//!
//! The target is the second token of the request, `/echo?content=hello` in
//! `GET /echo?content=hello HTTP/1.1`. What follows its first `?` is the query:
//! pieces parted by `&`, each a name and a value parted by the first `=` of the
//! piece. A piece without `=` names nothing and is passed over. Nothing is ever
//! refused: a request without target, query or parameters has no parameters.
use crate::text::{lemma_first_where, seek, seek_byte, split_tokens, tokens, views};
use vstd::prelude::*;
use vstd::string::StringSliceAdditionalSpecFns;

verus! {

/// `?`, which parts the query from what comes before it in the target.
pub const QUERY_MARK: u8 = 0x3f;

/// `&`, which parts one piece of the query from the next.
pub const PIECE_MARK: u8 = 0x26;

/// `=`, which parts the name of a parameter from its value.
pub const VALUE_MARK: u8 = 0x3d;

/// A query parameter: its name and its value.
pub type Pair = (Seq<u8>, Seq<u8>);

/// The target of the request `raw`: its second token, or nothing where it has
/// fewer than two.
pub open spec fn target_of(raw: Seq<u8>) -> Seq<u8> {
    let parts = tokens(raw);
    if parts.len() >= 2 {
        parts[1]
    } else {
        Seq::empty()
    }
}

/// The query of `target`: what follows its first `?`, or nothing where it has
/// none.
pub open spec fn query_of(target: Seq<u8>) -> Seq<u8> {
    let mark = seek(target, 0, QUERY_MARK);
    if mark < target.len() {
        target.subrange(mark + 1, target.len() as int)
    } else {
        Seq::empty()
    }
}

/// The parameter that `piece` spells: the name before its first `=` and the
/// value after it. A piece without `=` spells none.
pub open spec fn pair_of(piece: Seq<u8>) -> Option<Pair> {
    let mark = seek(piece, 0, VALUE_MARK);
    if mark < piece.len() {
        Some((piece.subrange(0, mark), piece.subrange(mark + 1, piece.len() as int)))
    } else {
        None
    }
}

/// The parameters spelled by the pieces of `query` from offset `from` on, in
/// the order in which they are written.
pub open spec fn pairs_from(query: Seq<u8>, from: int) -> Seq<Pair>
    decreases query.len() - from,
{
    if from < 0 || from > query.len() {
        Seq::empty()
    } else {
        proof {
            lemma_first_where(query, crate::text::is_byte(PIECE_MARK), from);
        }
        let end = seek(query, from, PIECE_MARK);
        let head = match pair_of(query.subrange(from, end)) {
            Some(pair) => seq![pair],
            None => Seq::empty(),
        };
        if end < query.len() {
            head + pairs_from(query, end + 1)
        } else {
            head
        }
    }
}

/// The mapping that `pairs` spell: each name with the value of the last pair
/// that gives it one.
pub open spec fn to_map(pairs: Seq<Pair>) -> Map<Seq<u8>, Seq<u8>>
    decreases pairs.len(),
{
    if pairs.len() == 0 {
        Map::empty()
    } else {
        to_map(pairs.drop_last()).insert(pairs.last().0, pairs.last().1)
    }
}

/// The parameters of the request `raw`, in the order in which they are
/// written.
pub open spec fn query_pairs(raw: Seq<u8>) -> Seq<Pair> {
    pairs_from(query_of(target_of(raw)), 0)
}

/// The query parameters of the request `raw`, by name.
pub open spec fn query_map(raw: Seq<u8>) -> Map<Seq<u8>, Seq<u8>> {
    to_map(query_pairs(raw))
}

/// The last pair that names `name` decides its value.
pub proof fn lemma_to_map_last(pairs: Seq<Pair>, at: int, name: Seq<u8>)
    requires
        0 <= at < pairs.len(),
        pairs[at].0 == name,
        forall|j: int| at < j < pairs.len() ==> pairs[j].0 != name,
    ensures
        to_map(pairs).contains_key(name),
        to_map(pairs)[name] == pairs[at].1,
    decreases pairs.len(),
{
    if at < pairs.len() - 1 {
        lemma_to_map_last(pairs.drop_last(), at, name);
    }
}

/// A name that no pair gives a value has none.
pub proof fn lemma_to_map_absent(pairs: Seq<Pair>, name: Seq<u8>)
    requires
        forall|j: int| 0 <= j < pairs.len() ==> pairs[j].0 != name,
    ensures
        !to_map(pairs).contains_key(name),
    decreases pairs.len(),
{
    if pairs.len() > 0 {
        lemma_to_map_absent(pairs.drop_last(), name);
    }
}

/// The bytes of one request.
pub struct Request {
    raw: Vec<u8>,
}

impl View for Request {
    type V = Seq<u8>;

    closed spec fn view(&self) -> Seq<u8> {
        self.raw@
    }
}

/// The query parameters of a request, borrowed from its bytes.
pub struct Queries<'a> {
    pairs: Vec<(&'a [u8], &'a [u8])>,
}

/// What each pair of `v` holds.
pub closed spec fn pairs_of(v: Seq<(&[u8], &[u8])>) -> Seq<Pair> {
    Seq::new(v.len(), |i: int| (v[i].0@, v[i].1@))
}

impl<'a> View for Queries<'a> {
    type V = Map<Seq<u8>, Seq<u8>>;

    closed spec fn view(&self) -> Map<Seq<u8>, Seq<u8>> {
        to_map(pairs_of(self.pairs@))
    }
}

impl<'a> Queries<'a> {
    /// The value of the parameter `name`, if the request gives it one.
    pub fn get(&self, name: &str) -> (value: Option<&'a [u8]>)
        ensures
            match value {
                Some(v) => self@.contains_key(name.spec_bytes()) && self@[name.spec_bytes()] == v@,
                None => !self@.contains_key(name.spec_bytes()),
            },
    {
        let wanted = name.as_bytes();
        let ghost held = pairs_of(self.pairs@);
        let mut i: usize = self.pairs.len();
        while i > 0
            invariant
                i <= self.pairs.len(),
                held == pairs_of(self.pairs@),
                wanted@ == name.spec_bytes(),
                forall|j: int| i <= j < held.len() ==> held[j].0 != wanted@,
            decreases i,
        {
            i -= 1;
            if same_bytes(self.pairs[i].0, wanted) {
                proof {
                    lemma_to_map_last(held, i as int, wanted@);
                }
                return Some(self.pairs[i].1);
            }
        }
        proof {
            lemma_to_map_absent(held, wanted@);
        }
        None
    }

    /// Whether the request gives no parameter at all.
    pub fn is_empty(&self) -> (empty: bool)
        ensures
            empty == (self@ == Map::<Seq<u8>, Seq<u8>>::empty()),
    {
        let ghost held = pairs_of(self.pairs@);
        if self.pairs.len() == 0 {
            true
        } else {
            assert(to_map(held).contains_key(held.last().0));
            false
        }
    }
}

/// Tests whether `a` and `b` hold the same bytes.
fn same_bytes(a: &[u8], b: &[u8]) -> (same: bool)
    ensures
        same == (a@ == b@),
{
    if a.len() != b.len() {
        return false;
    }
    let mut i: usize = 0;
    while i < a.len()
        invariant
            i <= a.len(),
            a.len() == b.len(),
            forall|j: int| 0 <= j < i ==> a@[j] == b@[j],
        decreases a.len() - i,
    {
        if a[i] != b[i] {
            return false;
        }
        i += 1;
    }
    assert(a@ =~= b@);
    true
}

impl Request {
    /// The request whose bytes are `raw`.
    pub fn new(raw: Vec<u8>) -> (request: Request)
        ensures
            request@ == raw@,
    {
        Request { raw }
    }

    /// The query parameters of the request. A request that carries none, or
    /// whose query spells none, has an empty mapping.
    pub fn parse_queries(&self) -> (queries: Queries<'_>)
        ensures
            queries@ == query_map(self@),
    {
        let parts = split_tokens(self.raw.as_slice());
        let mut pairs: Vec<(&[u8], &[u8])> = Vec::new();
        if parts.len() < 2 {
            assert(pairs_of(pairs@) =~= pairs_from(Seq::empty(), 0)) by {
                reveal_with_fuel(pairs_from, 2);
                lemma_first_where::<u8>(Seq::empty(), crate::text::is_byte(PIECE_MARK), 0);
                lemma_first_where::<u8>(Seq::empty(), crate::text::is_byte(VALUE_MARK), 0);
            }
            return Queries { pairs };
        }
        let target: &[u8] = parts[1];
        assert(target@ == target_of(self@)) by {
            assert(views(parts@)[1] == target@);
        }
        let mark = seek_byte(target, 0, QUERY_MARK);
        let query: &[u8] = if mark < target.len() {
            vstd::slice::slice_subrange(target, mark + 1, target.len())
        } else {
            vstd::slice::slice_subrange(target, 0, 0)
        };
        assert(query@ =~= query_of(target@));
        let mut from: usize = 0;
        loop
            invariant_except_break
                from <= query.len(),
                pairs_of(pairs@) + pairs_from(query@, from as int) == pairs_from(query@, 0),
            ensures
                pairs_of(pairs@) == pairs_from(query@, 0),
            decreases query.len() - from,
        {
            let end = seek_byte(query, from, PIECE_MARK);
            let piece = vstd::slice::slice_subrange(query, from, end);
            let eq = seek_byte(piece, 0, VALUE_MARK);
            let ghost before = pairs_of(pairs@);
            if eq < piece.len() {
                let name = vstd::slice::slice_subrange(piece, 0, eq);
                let value = vstd::slice::slice_subrange(piece, eq + 1, piece.len());
                pairs.push((name, value));
                assert(pairs_of(pairs@) =~= before + seq![pair_of(piece@).unwrap()]);
            }
            if end < query.len() {
                assert(pairs_of(pairs@) + pairs_from(query@, end + 1) =~= before + pairs_from(
                    query@,
                    from as int,
                ));
                from = end + 1;
            } else {
                assert(pairs_of(pairs@) =~= before + pairs_from(query@, from as int));
                break;
            }
        }
        Queries { pairs }
    }
}

} // verus!
