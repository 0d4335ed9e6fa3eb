//! Plain request-parameter values the HTTP layer hands into the core,
//! and the small decisions made on them.

use vstd::prelude::*;

verus! {

use vstd::string::StrSliceExecFns;

/// Login form: credentials and whether to keep them in the cache.
#[derive(Debug)]
pub struct LoginData {
    pub username: String,
    pub password: String,
    /// 1 asks for the credential cache; anything else declines it.
    pub cache: Option<u8>,
}

impl LoginData {
    /// Whether this login asks for cached credentials: only the exact
    /// value 1 does.
    pub fn use_cache(&self) -> (b: bool)
        ensures
            b == (self.cache == Some(1u8)),
    {
        match self.cache {
            Some(v) => v == 1,
            None => false,
        }
    }
}

/// An optional username, as the cookie-login endpoint takes it.
#[derive(Debug)]
pub struct UserNameData {
    pub username: Option<String>,
}

/// Query values of a signed stream request.
#[derive(Debug)]
pub struct AudioSign {
    /// Hex-encoded ciphertext of the capability payload.
    pub sign: String,
    /// Hex-encoded initialisation vector.
    pub iv: String,
    /// The account the capability names, in the clear.
    pub username: String,
}

/// Login form of the cookie-session login route.
#[derive(Debug)]
pub struct FormData {
    pub username: String,
    pub password: String,
}

/// A comma-separated list of identifiers.
#[derive(Debug)]
pub struct IdsData {
    pub ids: String,
}

/// Page window of a catalog listing.
#[derive(Debug)]
pub struct LimitOffsetData {
    pub limit: Option<u32>,
    pub offset: Option<u32>,
}

/// Field filter of a playlist query.
#[derive(Debug)]
pub struct FieldsData {
    pub fields: Option<String>,
}

/// Mutable details of a playlist.
#[derive(Debug)]
pub struct PlaylistDescData {
    pub name: Option<String>,
    pub public: Option<bool>,
    pub collaborative: Option<bool>,
    pub description: Option<String>,
}

/// Visibility flag of a follow request.
#[derive(Debug)]
pub struct PublicData {
    pub public: bool,
}

/// Locale and country of a browse query.
#[derive(Debug)]
pub struct CountryLocateData {
    pub locale: Option<String>,
    pub country: Option<String>,
}

/// Timestamp hint of a browse query.
#[derive(Debug)]
pub struct TimestampData {
    pub timestamp: Option<String>,
}

/// Items to add to a playlist, as query values.
#[derive(Debug)]
pub struct PlaylistAddItemQueryData {
    pub uris: String,
    pub position: Option<u32>,
}

/// Items to add to a playlist, as a JSON body.
#[derive(Debug)]
pub struct PlaylistAddItemJsonData {
    pub uris: Vec<String>,
    pub position: Option<u32>,
}

/// Index of the first comma of a character sequence, or its length
/// when it has none.
pub open spec fn spec_comma_index(s: Seq<char>) -> int
    decreases s.len(),
{
    if s.len() == 0 {
        0
    } else if s[0] == ',' {
        0
    } else {
        1 + spec_comma_index(s.drop_first())
    }
}

pub proof fn lemma_comma_index_bounds(s: Seq<char>)
    ensures
        0 <= spec_comma_index(s) <= s.len(),
        spec_comma_index(s) < s.len() ==> s[spec_comma_index(s)] == ',',
        forall|j: int| 0 <= j < spec_comma_index(s) ==> s[j] != ',',
    decreases s.len(),
{
    if s.len() > 0 && s[0] != ',' {
        lemma_comma_index_bounds(s.drop_first());
        assert forall|j: int| 0 <= j < spec_comma_index(s) implies s[j] != ',' by {
            if j > 0 {
                assert(s.drop_first()[j - 1] == s[j]);
            }
        }
    }
}

/// The comma-separated fields of a character sequence, in order; an
/// empty sequence has one empty field, as `split` reads it.
pub open spec fn spec_split_commas(s: Seq<char>) -> Seq<Seq<char>>
    decreases s.len(),
    via spec_split_commas_decreases
{
    let k = spec_comma_index(s);
    if k == s.len() {
        seq![s]
    } else {
        seq![s.take(k)] + spec_split_commas(s.skip(k + 1))
    }
}

#[via_fn]
proof fn spec_split_commas_decreases(s: Seq<char>) {
    lemma_comma_index_bounds(s);
}

proof fn lemma_comma_index_at(s: Seq<char>, m: int)
    requires
        0 <= m <= s.len(),
        forall|j: int| 0 <= j < m ==> s[j] != ',',
        m < s.len() ==> s[m] == ',',
    ensures
        spec_comma_index(s) == m,
{
    lemma_comma_index_bounds(s);
    if spec_comma_index(s) < m {
        assert(s[spec_comma_index(s)] == ',');
    }
    if m < spec_comma_index(s) {
        assert(s[m] != ',');
    }
}

impl IdsData {
    /// The comma-separated identifiers, in order.
    pub fn ids(&self) -> (r: Vec<String>)
        ensures
            r.deep_view() == spec_split_commas(self.ids@),
    {
        let ghost full = self.ids@;
        let text = self.ids.as_str();
        let n = text.unicode_len();
        let mut pieces: Vec<String> = Vec::new();
        let mut start: usize = 0;
        let mut pos: usize = 0;
        proof {
            assert(full.skip(0) =~= full);
            assert(pieces.deep_view() + spec_split_commas(full) =~~= spec_split_commas(full));
        }
        while pos < n
            invariant
                0 <= start <= pos <= n,
                n == full.len(),
                text@ == full,
                pieces.deep_view() + spec_split_commas(full.skip(start as int)) == spec_split_commas(
                    full,
                ),
                forall|j: int| start <= j < pos ==> full[j] != ',',
            decreases n - pos,
        {
            let c = text.get_char(pos);
            if c == ',' {
                let ghost t = full.skip(start as int);
                proof {
                    assert(forall|j: int| 0 <= j < pos - start ==> t[j] == full[j + start]);
                    lemma_comma_index_at(t, pos - start);
                    assert(t.take(pos - start) =~= full.subrange(start as int, pos as int));
                    assert(t.skip(pos - start + 1) =~= full.skip(pos as int + 1));
                }
                let piece = String::from_str(text.substring_char(start, pos));
                let ghost pre = pieces.deep_view();
                pieces.push(piece);
                proof {
                    assert(pieces.deep_view() =~~= pre + seq![full.subrange(
                        start as int,
                        pos as int,
                    )]);
                    assert(pieces.deep_view() + spec_split_commas(full.skip(pos as int + 1))
                        =~~= spec_split_commas(full));
                }
                start = pos + 1;
            }
            pos = pos + 1;
        }
        let ghost t = full.skip(start as int);
        proof {
            assert(forall|j: int| 0 <= j < t.len() ==> t[j] == full[j + start]);
            lemma_comma_index_at(t, t.len() as int);
            assert(spec_split_commas(t) =~~= seq![t]);
            assert(t =~= full.subrange(start as int, n as int));
        }
        let piece = String::from_str(text.substring_char(start, n));
        let ghost pre = pieces.deep_view();
        pieces.push(piece);
        proof {
            assert(pieces.deep_view() =~~= pre + seq![full.subrange(start as int, n as int)]);
            assert(pieces.deep_view() =~~= spec_split_commas(full));
        }
        pieces
    }
}

} // verus!
