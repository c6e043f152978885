use vstd::prelude::*;
use vstd::string::StrSliceExecFns;
use vstd::string::StringExecFns;

verus! {

/// A cookie's name and value as `Cookie::parse` reads them from one
/// `name=value` fragment; `None` where it rejects the fragment.
pub uninterp spec fn parsed_cookie(fragment: Seq<char>) -> Option<(Seq<char>, Seq<char>)>;

/// A letter, a digit, `-` or `_`: nothing that cookie parsing trims,
/// unquotes or splits at.
pub open spec fn is_token_char(c: char) -> bool {
    ('a' <= c && c <= 'z') || ('A' <= c && c <= 'Z') || ('0' <= c && c <= '9') || c == '-' || c == '_'
}

/// Every character of `s` is a token character.
pub open spec fn is_token_text(s: Seq<char>) -> bool {
    forall|i: int| 0 <= i < s.len() ==> is_token_char(#[trigger] s[i])
}

/// `s` is exactly `name=value`, both of token characters, the name not empty.
pub open spec fn is_plain_pair(s: Seq<char>, name: Seq<char>, value: Seq<char>) -> bool {
    &&& s == name + seq!['='] + value
    &&& name.len() > 0
    &&& is_token_text(name)
    &&& is_token_text(value)
}

/// Relies on cookie::Cookie::parse: reads one `name=value` pair, split at
/// the first `=`, trimmed and unquoted; fails on a fragment without `=` or
/// with an empty name. A plain pair of token characters is read as it is.
#[verifier::external_body]
fn parse_cookie_pair(fragment: &str) -> (r: Option<(String, String)>)
    ensures
        match r {
            Some(p) => parsed_cookie(fragment@) == Some((p.0@, p.1@)),
            None => parsed_cookie(fragment@).is_none(),
        },
        r matches Some(p) ==> p.0@.len() > 0,
        !fragment@.contains('=') ==> r.is_none(),
        forall|name: Seq<char>, value: Seq<char>|
            #[trigger] is_plain_pair(fragment@, name, value) ==> r.is_some() && r.unwrap().0@ == name
                && r.unwrap().1@ == value,
{
    match cookie::Cookie::parse(fragment.to_string()) {
        Ok(c) => Some((c.name().to_string(), c.value().to_string())),
        Err(_) => None,
    }
}

/// Relies on uuid::Uuid::new_v4 and its hyphenated text form: a fresh random
/// token of 36 characters.
#[verifier::external_body]
fn mint_token() -> (r: String)
    ensures
        r@.len() == 36,
{
    uuid::Uuid::new_v4().to_string()
}

/// Relies on cookie::Cookie::build and the cookie's `Display`: the header
/// value of an HTTP-only cookie scoped to the whole path.
#[verifier::external_body]
fn http_only_cookie_line(name: &str, value: &str) -> (r: String)
    ensures
        r@ == name@ + "="@ + value@ + "; HttpOnly; Path=/"@,
{
    cookie::Cookie::build(name, value).path("/").http_only(true).finish().to_string()
}

/// The fragments of a cookie header between `;` separators.
pub open spec fn split_semis(s: Seq<char>) -> Seq<Seq<char>>
    decreases s.len(),
{
    if s.len() == 0 {
        seq![Seq::empty()]
    } else {
        let init = split_semis(s.drop_last());
        if s.last() == ';' {
            init.push(Seq::empty())
        } else {
            init.update(init.len() - 1, init.last().push(s.last()))
        }
    }
}

/// The pairs of the fragments that parse, in order.
pub open spec fn parsed_pairs(frags: Seq<Seq<char>>) -> Seq<(Seq<char>, Seq<char>)>
    decreases frags.len(),
{
    if frags.len() == 0 {
        Seq::empty()
    } else {
        let rest = parsed_pairs(frags.drop_last());
        match parsed_cookie(frags.last()) {
            Some(p) => rest.push(p),
            None => rest,
        }
    }
}

/// The cookies of a header, name and value; unparseable fragments are skipped.
pub open spec fn header_cookies(header: Seq<char>) -> Seq<(Seq<char>, Seq<char>)> {
    parsed_pairs(split_semis(header))
}

/// The value of the last cookie called `name`: a later duplicate replaces an
/// earlier one.
pub open spec fn last_value(pairs: Seq<(Seq<char>, Seq<char>)>, name: Seq<char>) -> Option<Seq<char>>
    decreases pairs.len(),
{
    if pairs.len() == 0 {
        None
    } else if pairs.last().0 == name {
        Some(pairs.last().1)
    } else {
        last_value(pairs.drop_last(), name)
    }
}

/// The identity token that a request's cookie header carries: the value of
/// its `user_id` cookie, if that is present and non-empty.
pub open spec fn carried_token(header: Option<Seq<char>>) -> Option<Seq<char>> {
    match header {
        Some(h) => match last_value(header_cookies(h), "user_id"@) {
            Some(v) => if v.len() > 0 { Some(v) } else { None },
            None => None,
        },
        None => None,
    }
}

/// The text of a header that may be absent.
pub open spec fn header_view(h: Option<&str>) -> Option<Seq<char>> {
    match h {
        Some(s) => Some(s@),
        None => None,
    }
}

pub open spec fn pair_views(v: Seq<(String, String)>) -> Seq<(Seq<char>, Seq<char>)> {
    v.map_values(|p: (String, String)| (p.0@, p.1@))
}

proof fn lemma_split_nonempty(s: Seq<char>)
    ensures
        split_semis(s).len() >= 1,
    decreases s.len(),
{
    if s.len() > 0 {
        lemma_split_nonempty(s.drop_last());
    }
}

/// Splits a `Cookie` header at `;` and parses each fragment as a cookie,
/// skipping the fragments that do not parse.
pub fn parse_cookie_header(header: &str) -> (r: Vec<(String, String)>)
    ensures
        pair_views(r@) == header_cookies(header@),
        forall|name: Seq<char>, value: Seq<char>|
            #[trigger] is_plain_pair(header@, name, value) ==> pair_views(r@) == seq![(name, value)],
{
    let n = header.unicode_len();
    let mut out: Vec<(String, String)> = Vec::new();
    let mut start: usize = 0;
    let mut i: usize = 0;
    let ghost done: Seq<Seq<char>> = Seq::empty();
    proof {
        assert(header@.subrange(0, 0) == Seq::<char>::empty());
        assert(split_semis(Seq::<char>::empty()) == done.push(Seq::<char>::empty()));
    }
    while i < n
        invariant
            n == header@.len(),
            start <= i <= n,
            split_semis(header@.subrange(0, i as int)) == done.push(header@.subrange(start as int, i as int)),
            pair_views(out@) == parsed_pairs(done),
            !header@.contains(';') ==> start == 0 && out@.len() == 0 && done.len() == 0,
        decreases n - i,
    {
        let c = header.get_char(i);
        proof {
            assert(header@.subrange(0, i + 1).drop_last() == header@.subrange(0, i as int));
            lemma_split_nonempty(header@.subrange(0, i as int));
        }
        if c == ';' {
            proof {
                assert(header@[i as int] == ';');
            }
            let piece = header.substring_char(start, i);
            let parsed = parse_cookie_pair(piece);
            let ghost before = out@;
            match parsed {
                Some(p) => {
                    out.push(p);
                    proof {
                        assert(pair_views(out@) == pair_views(before).push((p.0@, p.1@)));
                    }
                },
                None => {},
            }
            proof {
                assert(done.push(piece@).drop_last() == done);
                done = done.push(piece@);
            }
            start = i + 1;
            proof {
                assert(header@.subrange(start as int, i + 1) == Seq::<char>::empty());
            }
        } else {
            proof {
                assert(header@.subrange(start as int, i + 1) == header@.subrange(start as int, i as int).push(c));
            }
        }
        i += 1;
    }
    let piece = header.substring_char(start, n);
    let parsed = parse_cookie_pair(piece);
    let ghost before = out@;
    match parsed {
        Some(p) => {
            out.push(p);
            proof {
                assert(pair_views(out@) == pair_views(before).push((p.0@, p.1@)));
            }
        },
        None => {},
    }
    proof {
        assert(header@.subrange(0, n as int) == header@);
        assert(done.push(piece@).drop_last() == done);
        assert forall|name: Seq<char>, value: Seq<char>|
            #[trigger] is_plain_pair(header@, name, value) implies pair_views(out@) == seq![(name, value)] by {
            if !header@.contains(';') {
                assert(piece@ == header@);
            } else {
                let k = choose|k: int| 0 <= k < header@.len() && header@[k] == ';';
                if k < name.len() {
                    assert(header@[k] == name[k]);
                } else if k == name.len() {
                    assert(header@[k] == '=');
                } else {
                    assert(header@[k] == value[k - name.len() - 1]);
                }
            }
        }
    }
    out
}

/// The value of the last cookie called `name` among `pairs`.
pub fn cookie_value(pairs: &Vec<(String, String)>, name: &String) -> (r: Option<String>)
    ensures
        match r {
            Some(v) => last_value(pair_views(pairs@), name@) == Some(v@),
            None => last_value(pair_views(pairs@), name@).is_none(),
        },
{
    let mut found: Option<String> = None;
    let mut k: usize = 0;
    while k < pairs.len()
        invariant
            k <= pairs@.len(),
            match found {
                Some(v) => last_value(pair_views(pairs@.subrange(0, k as int)), name@) == Some(v@),
                None => last_value(pair_views(pairs@.subrange(0, k as int)), name@).is_none(),
            },
        decreases pairs@.len() - k,
    {
        proof {
            assert(pair_views(pairs@.subrange(0, k + 1)).drop_last() == pair_views(pairs@.subrange(0, k as int)));
        }
        if pairs[k].0 == *name {
            found = Some(pairs[k].1.clone());
        }
        k += 1;
    }
    proof {
        assert(pairs@.subrange(0, k as int) == pairs@);
    }
    found
}

/// `header` is exactly `user_id=<token>`, the token of token characters and
/// not empty: what a browser sends back for the cookie it was given.
pub open spec fn echoes_token(header: Option<Seq<char>>, token: Seq<char>) -> bool {
    header == Some("user_id"@ + seq!['='] + token) && token.len() > 0 && is_token_text(token)
}

/// The identity token carried by a request's `Cookie` header, if any.
pub fn token_from_header(cookie_header: Option<&str>) -> (r: Option<String>)
    ensures
        match r {
            Some(t) => carried_token(header_view(cookie_header)) == Some(t@),
            None => carried_token(header_view(cookie_header)).is_none(),
        },
        forall|token: Seq<char>|
            #[trigger] echoes_token(header_view(cookie_header), token) ==> r.is_some() && r.unwrap()@ == token,
{
    proof {
        reveal_strlit("user_id");
    }
    match cookie_header {
        Some(h) => {
            let pairs = parse_cookie_header(h);
            let name = String::from_str("user_id");
            proof {
                assert forall|token: Seq<char>| #[trigger] echoes_token(header_view(cookie_header), token) implies
                    carried_token(header_view(cookie_header)) == Some(token) by {
                    assert(is_plain_pair(h@, "user_id"@, token));
                    assert(pair_views(pairs@) == seq![("user_id"@, token)]);
                    assert(seq![("user_id"@, token)].drop_last() == Seq::<(Seq<char>, Seq<char>)>::empty());
                }
            }
            match cookie_value(&pairs, &name) {
                Some(v) => {
                    if v.unicode_len() > 0 {
                        Some(v)
                    } else {
                        None
                    }
                },
                None => None,
            }
        },
        None => None,
    }
}

/// The identity that a request is handled under.
pub struct Identity {
    /// The opaque token naming the visitor.
    pub token: String,
    /// Whether the token was made for this request.
    pub minted: bool,
}

impl Identity {
    /// Resolves a request's identity from its `Cookie` header, with
    /// `fresh_token` as the token to hand out when the header carries none.
    pub fn resolve_with(cookie_header: Option<&str>, fresh_token: String) -> (r: Identity)
        ensures
            match carried_token(header_view(cookie_header)) {
                Some(t) => r.token@ == t && !r.minted,
                None => r.token == fresh_token && r.minted,
            },
    {
        match token_from_header(cookie_header) {
            Some(t) => Identity { token: t, minted: false },
            None => Identity { token: fresh_token, minted: true },
        }
    }

    /// Resolves a request's identity from its `Cookie` header, minting a new
    /// random token when the header carries none.
    pub fn resolve(cookie_header: Option<&str>) -> (r: Identity)
        ensures
            match carried_token(header_view(cookie_header)) {
                Some(t) => r.token@ == t && !r.minted,
                None => r.token@.len() == 36 && r.minted,
            },
            forall|token: Seq<char>|
                #[trigger] echoes_token(header_view(cookie_header), token) ==> r.token@ == token && !r.minted,
    {
        match token_from_header(cookie_header) {
            Some(t) => Identity { token: t, minted: false },
            None => Identity { token: mint_token(), minted: true },
        }
    }

    /// The `Set-Cookie` value to send with the response: always for a minted
    /// token, and for a carried one only when `refresh` asks to re-issue it.
    pub fn set_cookie(&self, refresh: bool) -> (r: Option<String>)
        ensures
            r.is_some() <==> (self.minted || refresh),
            r matches Some(line) ==> line@ == "user_id"@ + "="@ + self.token@ + "; HttpOnly; Path=/"@,
    {
        if self.minted || refresh {
            Some(http_only_cookie_line("user_id", self.token.as_str()))
        } else {
            None
        }
    }
}

} // verus!
