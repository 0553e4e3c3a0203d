//! The post records, their wire codecs, and the request-handling rules of
//! the relay.
//!
//! A `NewPost` arrives as the body of an inbound `POST /`, is forwarded to
//! the upstream system, and the `Post` the upstream returns is relayed
//! back. The handler's one piece of real logic is the mapping from the
//! outcome of the upstream call to the HTTP response: a created post is
//! returned as received, and every failure kind collapses to one opaque
//! internal-error response, the detail staying in the server's log.

use vstd::prelude::*;

use crate::codec::{
    spec_skip_ws, spec_parse_member, spec_quoted, spec_digits, skip_ws, parse_member, bytes_eq,
    quoted_bytes, digit_bytes, is_digit, lemma_parse_member_of, JsonValue, JsonScalar, LBRACE,
    RBRACE, COMMA, COLON,
};

verus! {

/// A post as the upstream system returns it: a `NewPost` plus the
/// identifier the upstream assigned.
#[derive(Debug, Clone)]
pub struct Post {
    pub id: u64,
    pub title: Vec<u8>,
    pub body: Vec<u8>,
    pub user_id: u64,
}

/// Specification-level mirror of [`Post`].
pub struct PostV {
    pub id: u64,
    pub title: Seq<u8>,
    pub body: Seq<u8>,
    pub user_id: u64,
}

impl View for Post {
    type V = PostV;

    open spec fn view(&self) -> PostV {
        PostV { id: self.id, title: self.title@, body: self.body@, user_id: self.user_id }
    }
}

/// A post as a client submits it: the upstream system assigns the
/// identifier. The text fields hold the bytes of the JSON string contents.
#[derive(Debug, Clone)]
pub struct NewPost {
    pub title: Vec<u8>,
    pub body: Vec<u8>,
    pub user_id: u64,
}

/// Specification-level mirror of [`NewPost`].
pub struct NewPostV {
    pub title: Seq<u8>,
    pub body: Seq<u8>,
    pub user_id: u64,
}

impl View for NewPost {
    type V = NewPostV;

    open spec fn view(&self) -> NewPostV {
        NewPostV { title: self.title@, body: self.body@, user_id: self.user_id }
    }
}

/// The wire name of the `title` field: `title`.
pub open spec fn title_key() -> Seq<u8> {
    seq![0x74u8, 0x69u8, 0x74u8, 0x6cu8, 0x65u8]
}

/// The wire name of the `body` field: `body`.
pub open spec fn body_key() -> Seq<u8> {
    seq![0x62u8, 0x6fu8, 0x64u8, 0x79u8]
}

/// The wire name of the `user_id` field: `userId`, camel-cased as the wire
/// convention asks.
pub open spec fn user_id_key() -> Seq<u8> {
    seq![0x75u8, 0x73u8, 0x65u8, 0x72u8, 0x49u8, 0x64u8]
}

/// The wire name of the `id` field: `id`.
pub open spec fn id_key() -> Seq<u8> {
    seq![0x69u8, 0x64u8]
}

fn title_key_vec() -> (r: Vec<u8>)
    ensures
        r@ == title_key(),
{
    let mut r: Vec<u8> = Vec::new();
    r.push(0x74);
    r.push(0x69);
    r.push(0x74);
    r.push(0x6c);
    r.push(0x65);
    proof {
        assert(r@ =~= title_key());
    }
    r
}

fn body_key_vec() -> (r: Vec<u8>)
    ensures
        r@ == body_key(),
{
    let mut r: Vec<u8> = Vec::new();
    r.push(0x62);
    r.push(0x6f);
    r.push(0x64);
    r.push(0x79);
    proof {
        assert(r@ =~= body_key());
    }
    r
}

fn user_id_key_vec() -> (r: Vec<u8>)
    ensures
        r@ == user_id_key(),
{
    let mut r: Vec<u8> = Vec::new();
    r.push(0x75);
    r.push(0x73);
    r.push(0x65);
    r.push(0x72);
    r.push(0x49);
    r.push(0x64);
    proof {
        assert(r@ =~= user_id_key());
    }
    r
}

fn id_key_vec() -> (r: Vec<u8>)
    ensures
        r@ == id_key(),
{
    let mut r: Vec<u8> = Vec::new();
    r.push(0x69);
    r.push(0x64);
    proof {
        assert(r@ =~= id_key());
    }
    r
}

/// Contents of an `Option`al byte vector.
pub open spec fn opt_bytes(o: Option<Vec<u8>>) -> Option<Seq<u8>> {
    match o {
        Some(v) => Some(v@),
        None => None,
    }
}

/// Folds one decoded member into the partially built `NewPost` fields:
/// each of the three required keys must appear exactly once, with a value
/// of the right type; any other key is refused.
pub open spec fn spec_new_post_apply(
    acc: (Option<Seq<u8>>, Option<Seq<u8>>, Option<u64>),
    m: (Seq<u8>, JsonValue),
) -> Option<(Option<Seq<u8>>, Option<Seq<u8>>, Option<u64>)> {
    if m.0 == title_key() {
        match (m.1, acc.0) {
            (JsonValue::Str(t), Option::None) => Some((Some(t), acc.1, acc.2)),
            _ => None,
        }
    } else if m.0 == body_key() {
        match (m.1, acc.1) {
            (JsonValue::Str(b), Option::None) => Some((acc.0, Some(b), acc.2)),
            _ => None,
        }
    } else if m.0 == user_id_key() {
        match (m.1, acc.2) {
            (JsonValue::Num(n), Option::None) => Some((acc.0, acc.1, Some(n))),
            _ => None,
        }
    } else {
        None
    }
}

/// The `NewPost` named by three decoded members, in any order.
pub open spec fn spec_new_post_fields(
    m1: (Seq<u8>, JsonValue),
    m2: (Seq<u8>, JsonValue),
    m3: (Seq<u8>, JsonValue),
) -> Option<NewPostV> {
    match spec_new_post_apply((None, None, None), m1) {
        Some(a1) => match spec_new_post_apply(a1, m2) {
            Some(a2) => match spec_new_post_apply(a2, m3) {
                Some((Some(t), Some(b), Some(u))) => Some(
                    NewPostV { title: t, body: b, user_id: u },
                ),
                _ => None,
            },
            None => None,
        },
        None => None,
    }
}

/// Decoding of an inbound request body as a `NewPost`: a JSON object
/// holding exactly the members `title` (string), `body` (string) and
/// `userId` (unsigned integer), once each, in any order, and nothing else.
/// A missing or repeated field, a value of the wrong type, an unknown
/// member, trailing input, or any malformed JSON is a decode failure.
pub open spec fn spec_decode_new_post(s: Seq<u8>) -> Option<NewPostV> {
    let i0 = spec_skip_ws(s, 0);
    if 0 <= i0 < s.len() && s[i0] == LBRACE {
        match spec_parse_member(s, i0 + 1) {
            Some((m1, i1)) => {
                let i2 = spec_skip_ws(s, i1);
                if 0 <= i2 < s.len() && s[i2] == COMMA {
                    match spec_parse_member(s, i2 + 1) {
                        Some((m2, i3)) => {
                            let i4 = spec_skip_ws(s, i3);
                            if 0 <= i4 < s.len() && s[i4] == COMMA {
                                match spec_parse_member(s, i4 + 1) {
                                    Some((m3, i5)) => {
                                        let i6 = spec_skip_ws(s, i5);
                                        if 0 <= i6 < s.len() && s[i6] == RBRACE && spec_skip_ws(
                                            s,
                                            i6 + 1,
                                        ) == s.len() {
                                            spec_new_post_fields(m1, m2, m3)
                                        } else {
                                            None
                                        }
                                    },
                                    None => None,
                                }
                            } else {
                                None
                            }
                        },
                        None => None,
                    }
                } else {
                    None
                }
            },
            None => None,
        }
    } else {
        None
    }
}

fn new_post_apply(
    acc: (Option<Vec<u8>>, Option<Vec<u8>>, Option<u64>),
    k: Vec<u8>,
    v: JsonScalar,
) -> (r: Option<(Option<Vec<u8>>, Option<Vec<u8>>, Option<u64>)>)
    ensures
        ({
            let m = spec_new_post_apply((opt_bytes(acc.0), opt_bytes(acc.1), acc.2), (k@, v@));
            match r {
                Some(t) => m == Some((opt_bytes(t.0), opt_bytes(t.1), t.2)),
                None => m is None,
            }
        }),
{
    let (title, body, uid) = acc;
    if bytes_eq(&k, &title_key_vec()) {
        match (v, title) {
            (JsonScalar::Str(t), Option::None) => Some((Some(t), body, uid)),
            _ => None,
        }
    } else if bytes_eq(&k, &body_key_vec()) {
        match (v, body) {
            (JsonScalar::Str(b), Option::None) => Some((title, Some(b), uid)),
            _ => None,
        }
    } else if bytes_eq(&k, &user_id_key_vec()) {
        match (v, uid) {
            (JsonScalar::Num(n), Option::None) => Some((title, body, Some(n))),
            _ => None,
        }
    } else {
        None
    }
}

fn new_post_fields(
    k1: Vec<u8>,
    v1: JsonScalar,
    k2: Vec<u8>,
    v2: JsonScalar,
    k3: Vec<u8>,
    v3: JsonScalar,
) -> (r: Option<NewPost>)
    ensures
        ({
            let m = spec_new_post_fields((k1@, v1@), (k2@, v2@), (k3@, v3@));
            match r {
                Some(p) => m == Some(p@),
                None => m is None,
            }
        }),
{
    let a1 = match new_post_apply((None, None, None), k1, v1) {
        Some(a) => a,
        None => {
            return None;
        },
    };
    let a2 = match new_post_apply(a1, k2, v2) {
        Some(a) => a,
        None => {
            return None;
        },
    };
    let a3 = match new_post_apply(a2, k3, v3) {
        Some(a) => a,
        None => {
            return None;
        },
    };
    match a3 {
        (Some(t), Some(b), Some(u)) => Some(NewPost { title: t, body: b, user_id: u }),
        _ => None,
    }
}

/// Decodes an inbound request body, as [`spec_decode_new_post`] describes.
pub fn decode_new_post(s: &Vec<u8>) -> (r: Option<NewPost>)
    ensures
        match r {
            Some(p) => spec_decode_new_post(s@) == Some(p@),
            None => spec_decode_new_post(s@) is None,
        },
{
    let i0 = skip_ws(s, 0);
    if !(i0 < s.len() && s[i0] == LBRACE) {
        return None;
    }
    let (k1, v1, i1) = match parse_member(s, i0 + 1) {
        Some(m) => m,
        None => {
            return None;
        },
    };
    let i2 = skip_ws(s, i1);
    if !(i2 < s.len() && s[i2] == COMMA) {
        return None;
    }
    let (k2, v2, i3) = match parse_member(s, i2 + 1) {
        Some(m) => m,
        None => {
            return None;
        },
    };
    let i4 = skip_ws(s, i3);
    if !(i4 < s.len() && s[i4] == COMMA) {
        return None;
    }
    let (k3, v3, i5) = match parse_member(s, i4 + 1) {
        Some(m) => m,
        None => {
            return None;
        },
    };
    let i6 = skip_ws(s, i5);
    if !(i6 < s.len() && s[i6] == RBRACE) {
        return None;
    }
    if skip_ws(s, i6 + 1) != s.len() {
        return None;
    }
    new_post_fields(k1, v1, k2, v2, k3, v3)
}

/// Folds one decoded member into the partially built `Post` fields: the
/// four required keys, once each, values of the right type, nothing else.
pub open spec fn spec_post_apply(
    acc: (Option<u64>, Option<Seq<u8>>, Option<Seq<u8>>, Option<u64>),
    m: (Seq<u8>, JsonValue),
) -> Option<(Option<u64>, Option<Seq<u8>>, Option<Seq<u8>>, Option<u64>)> {
    if m.0 == id_key() {
        match (m.1, acc.0) {
            (JsonValue::Num(n), Option::None) => Some((Some(n), acc.1, acc.2, acc.3)),
            _ => None,
        }
    } else if m.0 == title_key() {
        match (m.1, acc.1) {
            (JsonValue::Str(t), Option::None) => Some((acc.0, Some(t), acc.2, acc.3)),
            _ => None,
        }
    } else if m.0 == body_key() {
        match (m.1, acc.2) {
            (JsonValue::Str(b), Option::None) => Some((acc.0, acc.1, Some(b), acc.3)),
            _ => None,
        }
    } else if m.0 == user_id_key() {
        match (m.1, acc.3) {
            (JsonValue::Num(n), Option::None) => Some((acc.0, acc.1, acc.2, Some(n))),
            _ => None,
        }
    } else {
        None
    }
}

/// The `Post` named by four decoded members, in any order.
pub open spec fn spec_post_fields(
    m1: (Seq<u8>, JsonValue),
    m2: (Seq<u8>, JsonValue),
    m3: (Seq<u8>, JsonValue),
    m4: (Seq<u8>, JsonValue),
) -> Option<PostV> {
    match spec_post_apply((None, None, None, None), m1) {
        Some(a1) => match spec_post_apply(a1, m2) {
            Some(a2) => match spec_post_apply(a2, m3) {
                Some(a3) => match spec_post_apply(a3, m4) {
                    Some((Some(i), Some(t), Some(b), Some(u))) => Some(
                        PostV { id: i, title: t, body: b, user_id: u },
                    ),
                    _ => None,
                },
                None => None,
            },
            None => None,
        },
        None => None,
    }
}

/// Decoding of an upstream response body as a `Post`: a JSON object
/// holding exactly the members `id` and `userId` (unsigned integers) and
/// `title` and `body` (strings), once each, in any order, and nothing
/// else. Anything less is a decode failure of the upstream call.
pub open spec fn spec_decode_post(s: Seq<u8>) -> Option<PostV> {
    let i0 = spec_skip_ws(s, 0);
    if 0 <= i0 < s.len() && s[i0] == LBRACE {
        match spec_parse_member(s, i0 + 1) {
            Some((m1, i1)) => {
                let i2 = spec_skip_ws(s, i1);
                if 0 <= i2 < s.len() && s[i2] == COMMA {
                    match spec_parse_member(s, i2 + 1) {
                        Some((m2, i3)) => {
                            let i4 = spec_skip_ws(s, i3);
                            if 0 <= i4 < s.len() && s[i4] == COMMA {
                                match spec_parse_member(s, i4 + 1) {
                                    Some((m3, i5)) => {
                                        let i6 = spec_skip_ws(s, i5);
                                        if 0 <= i6 < s.len() && s[i6] == COMMA {
                                            match spec_parse_member(s, i6 + 1) {
                                                Some((m4, i7)) => {
                                                    let i8 = spec_skip_ws(s, i7);
                                                    if 0 <= i8 < s.len() && s[i8] == RBRACE
                                                        && spec_skip_ws(s, i8 + 1) == s.len() {
                                                        spec_post_fields(m1, m2, m3, m4)
                                                    } else {
                                                        None
                                                    }
                                                },
                                                None => None,
                                            }
                                        } else {
                                            None
                                        }
                                    },
                                    None => None,
                                }
                            } else {
                                None
                            }
                        },
                        None => None,
                    }
                } else {
                    None
                }
            },
            None => None,
        }
    } else {
        None
    }
}

fn post_apply(
    acc: (Option<u64>, Option<Vec<u8>>, Option<Vec<u8>>, Option<u64>),
    k: Vec<u8>,
    v: JsonScalar,
) -> (r: Option<(Option<u64>, Option<Vec<u8>>, Option<Vec<u8>>, Option<u64>)>)
    ensures
        ({
            let m = spec_post_apply((acc.0, opt_bytes(acc.1), opt_bytes(acc.2), acc.3), (k@, v@));
            match r {
                Some(t) => m == Some((t.0, opt_bytes(t.1), opt_bytes(t.2), t.3)),
                None => m is None,
            }
        }),
{
    let (id, title, body, uid) = acc;
    if bytes_eq(&k, &id_key_vec()) {
        match (v, id) {
            (JsonScalar::Num(n), Option::None) => Some((Some(n), title, body, uid)),
            _ => None,
        }
    } else if bytes_eq(&k, &title_key_vec()) {
        match (v, title) {
            (JsonScalar::Str(t), Option::None) => Some((id, Some(t), body, uid)),
            _ => None,
        }
    } else if bytes_eq(&k, &body_key_vec()) {
        match (v, body) {
            (JsonScalar::Str(b), Option::None) => Some((id, title, Some(b), uid)),
            _ => None,
        }
    } else if bytes_eq(&k, &user_id_key_vec()) {
        match (v, uid) {
            (JsonScalar::Num(n), Option::None) => Some((id, title, body, Some(n))),
            _ => None,
        }
    } else {
        None
    }
}

fn post_fields(
    k1: Vec<u8>,
    v1: JsonScalar,
    k2: Vec<u8>,
    v2: JsonScalar,
    k3: Vec<u8>,
    v3: JsonScalar,
    k4: Vec<u8>,
    v4: JsonScalar,
) -> (r: Option<Post>)
    ensures
        ({
            let m = spec_post_fields((k1@, v1@), (k2@, v2@), (k3@, v3@), (k4@, v4@));
            match r {
                Some(p) => m == Some(p@),
                None => m is None,
            }
        }),
{
    let a1 = match post_apply((None, None, None, None), k1, v1) {
        Some(a) => a,
        None => {
            return None;
        },
    };
    let a2 = match post_apply(a1, k2, v2) {
        Some(a) => a,
        None => {
            return None;
        },
    };
    let a3 = match post_apply(a2, k3, v3) {
        Some(a) => a,
        None => {
            return None;
        },
    };
    let a4 = match post_apply(a3, k4, v4) {
        Some(a) => a,
        None => {
            return None;
        },
    };
    match a4 {
        (Some(i), Some(t), Some(b), Some(u)) => Some(Post { id: i, title: t, body: b, user_id: u }),
        _ => None,
    }
}

/// Decodes an upstream response body, as [`spec_decode_post`] describes.
pub fn decode_post(s: &Vec<u8>) -> (r: Option<Post>)
    ensures
        match r {
            Some(p) => spec_decode_post(s@) == Some(p@),
            None => spec_decode_post(s@) is None,
        },
{
    let i0 = skip_ws(s, 0);
    if !(i0 < s.len() && s[i0] == LBRACE) {
        return None;
    }
    let (k1, v1, i1) = match parse_member(s, i0 + 1) {
        Some(m) => m,
        None => {
            return None;
        },
    };
    let i2 = skip_ws(s, i1);
    if !(i2 < s.len() && s[i2] == COMMA) {
        return None;
    }
    let (k2, v2, i3) = match parse_member(s, i2 + 1) {
        Some(m) => m,
        None => {
            return None;
        },
    };
    let i4 = skip_ws(s, i3);
    if !(i4 < s.len() && s[i4] == COMMA) {
        return None;
    }
    let (k3, v3, i5) = match parse_member(s, i4 + 1) {
        Some(m) => m,
        None => {
            return None;
        },
    };
    let i6 = skip_ws(s, i5);
    if !(i6 < s.len() && s[i6] == COMMA) {
        return None;
    }
    let (k4, v4, i7) = match parse_member(s, i6 + 1) {
        Some(m) => m,
        None => {
            return None;
        },
    };
    let i8 = skip_ws(s, i7);
    if !(i8 < s.len() && s[i8] == RBRACE) {
        return None;
    }
    if skip_ws(s, i8 + 1) != s.len() {
        return None;
    }
    post_fields(k1, v1, k2, v2, k3, v3, k4, v4)
}

/// Wire encoding of a `NewPost`: the three members in declaration order,
/// `title`, `body`, `userId`, with no insignificant whitespace.
pub open spec fn spec_encode_new_post(p: NewPostV) -> Seq<u8> {
    seq![LBRACE] + spec_quoted(title_key()) + seq![COLON] + spec_quoted(p.title) + seq![COMMA]
        + spec_quoted(body_key()) + seq![COLON] + spec_quoted(p.body) + seq![COMMA] + spec_quoted(
        user_id_key(),
    ) + seq![COLON] + spec_digits(p.user_id) + seq![RBRACE]
}

/// Wire encoding of a `Post`: the four members in declaration order, `id`,
/// `title`, `body`, `userId`, with no insignificant whitespace.
pub open spec fn spec_encode_post(p: PostV) -> Seq<u8> {
    seq![LBRACE] + spec_quoted(id_key()) + seq![COLON] + spec_digits(p.id) + seq![COMMA]
        + spec_quoted(title_key()) + seq![COLON] + spec_quoted(p.title) + seq![COMMA] + spec_quoted(
        body_key(),
    ) + seq![COLON] + spec_quoted(p.body) + seq![COMMA] + spec_quoted(user_id_key()) + seq![COLON]
        + spec_digits(p.user_id) + seq![RBRACE]
}

/// Encodes a `NewPost` for the outbound call, as [`spec_encode_new_post`]
/// describes.
pub fn encode_new_post(p: &NewPost) -> (r: Vec<u8>)
    ensures
        r@ == spec_encode_new_post(p@),
{
    let mut r: Vec<u8> = Vec::new();
    r.push(LBRACE);
    let mut piece = quoted_bytes(&title_key_vec());
    r.append(&mut piece);
    r.push(COLON);
    let mut piece = quoted_bytes(&p.title);
    r.append(&mut piece);
    r.push(COMMA);
    let mut piece = quoted_bytes(&body_key_vec());
    r.append(&mut piece);
    r.push(COLON);
    let mut piece = quoted_bytes(&p.body);
    r.append(&mut piece);
    r.push(COMMA);
    let mut piece = quoted_bytes(&user_id_key_vec());
    r.append(&mut piece);
    r.push(COLON);
    let mut piece = digit_bytes(p.user_id);
    r.append(&mut piece);
    r.push(RBRACE);
    proof {
        assert(r@ =~= spec_encode_new_post(p@));
    }
    r
}

/// Encodes a `Post` for the response body, as [`spec_encode_post`]
/// describes.
pub fn encode_post(p: &Post) -> (r: Vec<u8>)
    ensures
        r@ == spec_encode_post(p@),
{
    let mut r: Vec<u8> = Vec::new();
    r.push(LBRACE);
    let mut piece = quoted_bytes(&id_key_vec());
    r.append(&mut piece);
    r.push(COLON);
    let mut piece = digit_bytes(p.id);
    r.append(&mut piece);
    r.push(COMMA);
    let mut piece = quoted_bytes(&title_key_vec());
    r.append(&mut piece);
    r.push(COLON);
    let mut piece = quoted_bytes(&p.title);
    r.append(&mut piece);
    r.push(COMMA);
    let mut piece = quoted_bytes(&body_key_vec());
    r.append(&mut piece);
    r.push(COLON);
    let mut piece = quoted_bytes(&p.body);
    r.append(&mut piece);
    r.push(COMMA);
    let mut piece = quoted_bytes(&user_id_key_vec());
    r.append(&mut piece);
    r.push(COLON);
    let mut piece = digit_bytes(p.user_id);
    r.append(&mut piece);
    r.push(RBRACE);
    proof {
        assert(r@ =~= spec_encode_post(p@));
    }
    r
}

/// Law: encoding a `NewPost` to wire JSON and decoding it back yields an
/// equal record, whatever bytes its text fields hold; in particular the
/// wire name of the user identifier is `userId`, which the decoder demands
/// in turn.
#[verifier::rlimit(100)]
pub proof fn lemma_new_post_round_trip(p: NewPostV)
    ensures
        spec_decode_new_post(spec_encode_new_post(p)) == Some(p),
{
    let s = spec_encode_new_post(p);
    let tk = spec_quoted(title_key());
    let bk = spec_quoted(body_key());
    let uk = spec_quoted(user_id_key());
    let qt = spec_quoted(p.title);
    let qb = spec_quoted(p.body);
    let du = spec_digits(p.user_id);
    let j1 = (1 + tk.len() + 1 + qt.len()) as int;
    let j2 = (j1 + 1 + bk.len() + 1 + qb.len()) as int;
    let j3 = (j2 + 1 + uk.len() + 1 + du.len()) as int;
    assert(s.len() == j3 + 1);
    assert(s[0] == LBRACE);
    assert(spec_skip_ws(s, 0) == 0);
    let rest1 = seq![COMMA] + bk + seq![COLON] + qb + seq![COMMA] + uk + seq![COLON] + du
        + seq![RBRACE];
    assert(s.skip(1) =~= tk + seq![COLON] + qt + rest1) by {
        assert forall|m: int| 0 <= m < s.len() - 1 implies s.skip(1)[m] == (tk + seq![COLON] + qt
            + rest1)[m] by {
            assert(s.skip(1)[m] == s[1 + m]);
        }
    }
    lemma_parse_member_of(title_key(), JsonValue::Str(p.title), rest1, s, 1);
    assert(s[j1] == COMMA);
    assert(spec_skip_ws(s, j1) == j1);
    let rest2 = seq![COMMA] + uk + seq![COLON] + du + seq![RBRACE];
    assert(s.skip(j1 + 1) =~= bk + seq![COLON] + qb + rest2) by {
        assert forall|m: int| 0 <= m < s.len() - (j1 + 1) implies s.skip(j1 + 1)[m] == (bk
            + seq![COLON] + qb + rest2)[m] by {
            assert(s.skip(j1 + 1)[m] == s[j1 + 1 + m]);
        }
    }
    lemma_parse_member_of(body_key(), JsonValue::Str(p.body), rest2, s, j1 + 1);
    assert(s[j2] == COMMA);
    assert(spec_skip_ws(s, j2) == j2);
    let rest3 = seq![RBRACE];
    assert(s.skip(j2 + 1) =~= uk + seq![COLON] + du + rest3) by {
        assert forall|m: int| 0 <= m < s.len() - (j2 + 1) implies s.skip(j2 + 1)[m] == (uk
            + seq![COLON] + du + rest3)[m] by {
            assert(s.skip(j2 + 1)[m] == s[j2 + 1 + m]);
        }
    }
    assert(!is_digit(RBRACE));
    lemma_parse_member_of(user_id_key(), JsonValue::Num(p.user_id), rest3, s, j2 + 1);
    assert(s[j3] == RBRACE);
    assert(spec_skip_ws(s, j3) == j3);
    assert(spec_skip_ws(s, j3 + 1) == s.len());
    assert(body_key() != title_key());
    assert(user_id_key() != title_key());
    assert(user_id_key() != body_key());
    assert(spec_decode_new_post(s) == Some(p));
}

/// Law: encoding a `Post` to wire JSON and decoding it back yields an
/// equal record, whatever bytes its text fields hold.
#[verifier::rlimit(100)]
pub proof fn lemma_post_round_trip(p: PostV)
    ensures
        spec_decode_post(spec_encode_post(p)) == Some(p),
{
    let s = spec_encode_post(p);
    let ik = spec_quoted(id_key());
    let tk = spec_quoted(title_key());
    let bk = spec_quoted(body_key());
    let uk = spec_quoted(user_id_key());
    let di = spec_digits(p.id);
    let qt = spec_quoted(p.title);
    let qb = spec_quoted(p.body);
    let du = spec_digits(p.user_id);
    let j1 = (1 + ik.len() + 1 + di.len()) as int;
    let j2 = (j1 + 1 + tk.len() + 1 + qt.len()) as int;
    let j3 = (j2 + 1 + bk.len() + 1 + qb.len()) as int;
    let j4 = (j3 + 1 + uk.len() + 1 + du.len()) as int;
    assert(s.len() == j4 + 1);
    assert(s[0] == LBRACE);
    assert(spec_skip_ws(s, 0) == 0);
    let rest1 = seq![COMMA] + tk + seq![COLON] + qt + seq![COMMA] + bk + seq![COLON] + qb
        + seq![COMMA] + uk + seq![COLON] + du + seq![RBRACE];
    assert(s.skip(1) =~= ik + seq![COLON] + di + rest1) by {
        assert forall|m: int| 0 <= m < s.len() - 1 implies s.skip(1)[m] == (ik + seq![COLON] + di
            + rest1)[m] by {
            assert(s.skip(1)[m] == s[1 + m]);
        }
    }
    assert(!is_digit(COMMA));
    lemma_parse_member_of(id_key(), JsonValue::Num(p.id), rest1, s, 1);
    assert(s[j1] == COMMA);
    assert(spec_skip_ws(s, j1) == j1);
    let rest2 = seq![COMMA] + bk + seq![COLON] + qb + seq![COMMA] + uk + seq![COLON] + du
        + seq![RBRACE];
    assert(s.skip(j1 + 1) =~= tk + seq![COLON] + qt + rest2) by {
        assert forall|m: int| 0 <= m < s.len() - (j1 + 1) implies s.skip(j1 + 1)[m] == (tk
            + seq![COLON] + qt + rest2)[m] by {
            assert(s.skip(j1 + 1)[m] == s[j1 + 1 + m]);
        }
    }
    lemma_parse_member_of(title_key(), JsonValue::Str(p.title), rest2, s, j1 + 1);
    assert(s[j2] == COMMA);
    assert(spec_skip_ws(s, j2) == j2);
    let rest3 = seq![COMMA] + uk + seq![COLON] + du + seq![RBRACE];
    assert(s.skip(j2 + 1) =~= bk + seq![COLON] + qb + rest3) by {
        assert forall|m: int| 0 <= m < s.len() - (j2 + 1) implies s.skip(j2 + 1)[m] == (bk
            + seq![COLON] + qb + rest3)[m] by {
            assert(s.skip(j2 + 1)[m] == s[j2 + 1 + m]);
        }
    }
    lemma_parse_member_of(body_key(), JsonValue::Str(p.body), rest3, s, j2 + 1);
    assert(s[j3] == COMMA);
    assert(spec_skip_ws(s, j3) == j3);
    let rest4 = seq![RBRACE];
    assert(s.skip(j3 + 1) =~= uk + seq![COLON] + du + rest4) by {
        assert forall|m: int| 0 <= m < s.len() - (j3 + 1) implies s.skip(j3 + 1)[m] == (uk
            + seq![COLON] + du + rest4)[m] by {
            assert(s.skip(j3 + 1)[m] == s[j3 + 1 + m]);
        }
    }
    assert(!is_digit(RBRACE));
    lemma_parse_member_of(user_id_key(), JsonValue::Num(p.user_id), rest4, s, j3 + 1);
    assert(s[j4] == RBRACE);
    assert(spec_skip_ws(s, j4) == j4);
    assert(spec_skip_ws(s, j4 + 1) == s.len());
    assert(title_key() != id_key());
    assert(body_key() != id_key());
    assert(body_key() != title_key());
    assert(user_id_key() != id_key());
    assert(user_id_key() != title_key());
    assert(user_id_key() != body_key());
    assert(spec_decode_post(s) == Some(p));
}

/// How an upstream call failed. The three kinds stay distinguishable here
/// for the server-side log, though the caller-facing response collapses
/// them to one. Each carries the underlying error's text.
#[derive(Debug)]
pub enum ApiError {
    /// The connection could not be established or the request could not be
    /// sent or received.
    Tcp(String),
    /// The upstream answered with a client- or server-error status code.
    HttpResponse(String),
    /// The upstream's response body could not be parsed as a `Post`.
    JsonParse(String),
}

impl ApiError {
    /// The log line for this failure: a line naming the kind, then the
    /// underlying error's text.
    pub fn message(&self) -> (r: String)
        ensures
            match self {
                ApiError::Tcp(d) => r@ == "Received TCP error\n"@ + d@,
                ApiError::HttpResponse(d) => r@ == "Received HTTP error status code\n"@ + d@,
                ApiError::JsonParse(d) => r@ == "Error parsing JSON response\n"@ + d@,
            },
    {
        match self {
            ApiError::Tcp(d) => String::from_str("Received TCP error\n").concat(d.as_str()),
            ApiError::HttpResponse(d) => String::from_str("Received HTTP error status code\n")
                .concat(d.as_str()),
            ApiError::JsonParse(d) => String::from_str("Error parsing JSON response\n").concat(
                d.as_str(),
            ),
        }
    }
}

/// The body of an HTTP response the relay sends.
#[derive(Debug)]
pub enum ReplyBody {
    /// No body.
    Empty,
    /// A JSON body, already encoded.
    Json(Vec<u8>),
    /// A fixed plain-text body.
    Text(&'static str),
}

/// An HTTP response of the relay: the status code and the body.
#[derive(Debug)]
pub struct HttpReply {
    pub status: u16,
    pub body: ReplyBody,
}

/// The caller-facing error of the relay. Whatever failed upstream, the
/// caller sees one opaque kind: no detail crosses the response boundary.
#[derive(Debug)]
pub enum ApplicationError {
    InternalError,
}

impl ApplicationError {
    /// The status code of the error response.
    pub fn status_code(&self) -> (r: u16)
        ensures
            r == 500,
    {
        500
    }

    /// The fixed plain-text body of the error response.
    pub fn message(&self) -> (r: &'static str)
        ensures
            r@ == "An internal server error occurred"@,
    {
        "An internal server error occurred"
    }

    /// The full error response: internal-error status, fixed plain text.
    pub fn error_response(&self) -> (r: HttpReply)
        ensures
            r.status == 500,
            r.body matches ReplyBody::Text(t) && t@ == "An internal server error occurred"@,
    {
        HttpReply { status: self.status_code(), body: ReplyBody::Text(self.message()) }
    }
}

/// The capability of creating a post on the upstream system: one real
/// implementation performs the outbound HTTP call, and a test double
/// answers without network I/O.
pub trait PostAdder {
    /// Attempts to create `body` upstream, returning the created `Post` or
    /// one of the three failure kinds.
    fn add(&self, body: &NewPost) -> Result<Post, ApiError>;
}

/// The response to `GET /`: a liveness probe with no business meaning.
pub fn index_response() -> (r: HttpReply)
    ensures
        r.status == 200,
        r.body is Empty,
{
    HttpReply { status: 200, body: ReplyBody::Empty }
}

/// Decodes an inbound `POST /` body. A body that does not decode as a
/// `NewPost` is answered with a client-error status directly: it never
/// reaches the outbound client.
pub fn decode_request(raw: &Vec<u8>) -> (r: Result<NewPost, HttpReply>)
    ensures
        match spec_decode_new_post(raw@) {
            Some(v) => r matches Ok(p) && p@ == v,
            None => r matches Err(e) && e.status == 400 && e.body is Empty,
        },
{
    match decode_new_post(raw) {
        Some(p) => Ok(p),
        None => Err(HttpReply { status: 400, body: ReplyBody::Empty }),
    }
}

/// Maps the outcome of the upstream call to the response for `POST /`: a
/// created post is relayed back as received, status 200, and every failure
/// kind becomes the one opaque internal-error response.
pub fn add_post(outcome: Result<Post, ApiError>) -> (r: HttpReply)
    ensures
        outcome matches Ok(p) ==> (r.status == 200 && (r.body matches ReplyBody::Json(b) && b@
            == spec_encode_post(p@))),
        outcome matches Err(_) ==> (r.status == 500 && (r.body matches ReplyBody::Text(t) && t@
            == "An internal server error occurred"@)),
{
    match outcome {
        Ok(post) => HttpReply { status: 200, body: ReplyBody::Json(encode_post(&post)) },
        Err(_) => ApplicationError::InternalError.error_response(),
    }
}

/// Where the upstream system lives. The base URL defaults to the public
/// placeholder API when the `API_URL` environment variable is absent.
#[derive(Debug)]
pub struct ApiConfig {
    pub api_url: String,
}

impl ApiConfig {
    /// Builds the configuration from the raw environment value, `None`
    /// standing for an absent variable. No validation is performed: a
    /// malformed URL surfaces later as an outbound-call failure.
    pub fn new(api_url: Option<String>) -> (r: ApiConfig)
        ensures
            r.api_url@ == match api_url {
                Some(u) => u@,
                None => "https://jsonplaceholder.typicode.com"@,
            },
    {
        match api_url {
            Some(u) => ApiConfig { api_url: u },
            None => ApiConfig { api_url: "https://jsonplaceholder.typicode.com".to_owned() },
        }
    }

    /// The URL posts are created at: the base URL followed by `/posts`.
    pub fn posts_url(&self) -> (r: String)
        ensures
            r@ == self.api_url@ + "/posts"@,
    {
        self.api_url.clone().concat("/posts")
    }
}

} // verus!
