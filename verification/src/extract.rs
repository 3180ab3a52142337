//! Validating extractors: each raw source (request body, path segment,
//! query string) is parsed into its target structure first, and only a
//! structurally valid value ever meets the validation rules. Parsing and
//! rule-checking failures are distinct classified errors.
//!
//! Both grammars are deliberate restrictions. The body grammar is a flat
//! JSON object: string members (with the two-character escapes; a `\u`
//! escape is not supported here and is a parse error), whole numbers,
//! `true`, `false` and `null`, with the usual whitespace. The query
//! grammar is `key=value` pairs joined by `&`, taken literally: no form
//! decoding, so a percent-escaped value is compared as written.

use vstd::prelude::*;
use vstd::string::StringSliceAdditionalSpecFns;
use vstd::utf8::encode_utf8;
use vstd::utf8::valid_utf8;
use crate::bytesutil::bytes_eq;
use crate::bytesutil::copy_range;
use crate::codec::spec_parse_i64;
use crate::bytesutil::utf8_string;
use crate::numdec::push_dec_u64;
use crate::numdec::spec_dec_digits;
use crate::validate::CreateUserDto;
use crate::validate::DeleteUserDto;
use crate::validate::DeleteUserParam;
use crate::validate::LoginUserDto;
use crate::validate::QueryPostDto;
use crate::validate::RedirectParam;
use crate::validate::Violation;
use crate::validate::email_ok;

verus! {

/// A value of the body grammar, at the specification level.
pub enum GField {
    S(Seq<u8>),
    I(i64),
    B(bool),
    Null,
}

/// A value of the body grammar, as executable data.
#[derive(Debug)]
pub enum FieldVal {
    S(Vec<u8>),
    I(i64),
    B(bool),
    Null,
}

impl FieldVal {
    /// The specification-level value this holds.
    pub open spec fn view_field(&self) -> GField {
        match self {
            FieldVal::S(v) => GField::S(v@),
            FieldVal::I(n) => GField::I(*n),
            FieldVal::B(b) => GField::B(*b),
            FieldVal::Null => GField::Null,
        }
    }
}

/// One member of a parsed object: raw key bytes and the value.
#[derive(Debug)]
pub struct Member {
    pub key: Vec<u8>,
    pub val: FieldVal,
}

/// The specification-level view of parsed members.
pub open spec fn spec_members_view(ms: Seq<Member>) -> Seq<(Seq<u8>, GField)> {
    ms.map_values(|m: Member| (m.key@, m.val.view_field()))
}

/// Is this byte JSON whitespace?
pub open spec fn spec_is_ws(b: u8) -> bool {
    b == 32 || b == 9 || b == 10 || b == 13
}

/// The first position at or after `i` that is not whitespace.
pub open spec fn spec_skip_ws(s: Seq<u8>, i: int) -> int
    decreases s.len() - i,
{
    if 0 <= i < s.len() && spec_is_ws(s[i]) {
        spec_skip_ws(s, i + 1)
    } else {
        i
    }
}

/// Where the whitespace skip lands.
pub proof fn lemma_skip_ws_bounds(s: Seq<u8>, i: int)
    requires
        0 <= i <= s.len(),
    ensures
        i <= spec_skip_ws(s, i) <= s.len(),
    decreases s.len() - i,
{
    if i < s.len() && spec_is_ws(s[i]) {
        lemma_skip_ws_bounds(s, i + 1);
    }
}

/// A string body read just after the opening quote: plain bytes and the
/// supported two-character escapes, up to the closing quote.
pub open spec fn spec_scan_string(s: Seq<u8>, i: int, acc: Seq<u8>) -> Option<(Seq<u8>, int)>
    decreases s.len() - i,
{
    if i < 0 || i >= s.len() {
        None
    } else if s[i] == 34 {
        Some((acc, i + 1))
    } else if s[i] == 92 {
        if i + 1 < s.len() {
            let e = s[i + 1];
            if e == 34 || e == 92 || e == 47 {
                spec_scan_string(s, i + 2, acc + seq![e])
            } else if e == 110 {
                spec_scan_string(s, i + 2, acc + seq![10u8])
            } else if e == 116 {
                spec_scan_string(s, i + 2, acc + seq![9u8])
            } else if e == 114 {
                spec_scan_string(s, i + 2, acc + seq![13u8])
            } else if e == 98 {
                spec_scan_string(s, i + 2, acc + seq![8u8])
            } else if e == 102 {
                spec_scan_string(s, i + 2, acc + seq![12u8])
            } else {
                None
            }
        } else {
            None
        }
    } else {
        spec_scan_string(s, i + 1, acc + seq![s[i]])
    }
}

/// A value read at `i` (no leading whitespace): a string, a whole number,
/// `true`, `false` or `null`.
pub open spec fn spec_parse_value(s: Seq<u8>, i: int) -> Option<(GField, int)> {
    if i < 0 || i >= s.len() {
        None
    } else if s[i] == 34 {
        match spec_scan_string(s, i + 1, Seq::empty()) {
            Some((b, j)) => Some((GField::S(b), j)),
            None => None,
        }
    } else if s[i] == 116 {
        if i + 4 <= s.len() && s.subrange(i, i + 4) == seq![116u8, 114, 117, 101] {
            Some((GField::B(true), i + 4))
        } else {
            None
        }
    } else if s[i] == 102 {
        if i + 5 <= s.len() && s.subrange(i, i + 5) == seq![102u8, 97, 108, 115, 101] {
            Some((GField::B(false), i + 5))
        } else {
            None
        }
    } else if s[i] == 110 {
        if i + 4 <= s.len() && s.subrange(i, i + 4) == seq![110u8, 117, 108, 108] {
            Some((GField::Null, i + 4))
        } else {
            None
        }
    } else {
        match spec_parse_i64(s, i) {
            Some((n, j)) => Some((GField::I(n), j)),
            None => None,
        }
    }
}

/// The members of an object, read after the opening brace (or after a
/// comma), with a step bound that shrinks on every member.
pub open spec fn spec_parse_members(
    s: Seq<u8>,
    i: int,
    acc: Seq<(Seq<u8>, GField)>,
    fuel: nat,
) -> Option<(Seq<(Seq<u8>, GField)>, int)>
    decreases fuel,
{
    if fuel == 0 {
        None
    } else {
        let k = spec_skip_ws(s, i);
        if k < s.len() && s[k] == 34 {
            match spec_scan_string(s, k + 1, Seq::empty()) {
                Some((key, j1)) => {
                    let j2 = spec_skip_ws(s, j1);
                    if j2 < s.len() && s[j2] == 58 {
                        let j3 = spec_skip_ws(s, j2 + 1);
                        match spec_parse_value(s, j3) {
                            Some((v, j4)) => {
                                let j5 = spec_skip_ws(s, j4);
                                if j5 < s.len() && s[j5] == 44 {
                                    spec_parse_members(
                                        s,
                                        j5 + 1,
                                        acc + seq![(key, v)],
                                        (fuel - 1) as nat,
                                    )
                                } else if j5 < s.len() && s[j5] == 125 {
                                    Some((acc + seq![(key, v)], j5 + 1))
                                } else {
                                    None
                                }
                            },
                            None => None,
                        }
                    } else {
                        None
                    }
                },
                None => None,
            }
        } else {
            None
        }
    }
}

/// A whole body as a flat object: whitespace, `{`, members (possibly
/// none), `}`, whitespace, end.
pub open spec fn spec_parse_object(s: Seq<u8>) -> Option<Seq<(Seq<u8>, GField)>> {
    let i = spec_skip_ws(s, 0);
    if i < s.len() && s[i] == 123 {
        let j = spec_skip_ws(s, i + 1);
        if j < s.len() && s[j] == 125 {
            if spec_skip_ws(s, j + 1) == s.len() {
                Some(Seq::empty())
            } else {
                None
            }
        } else {
            match spec_parse_members(s, i + 1, Seq::empty(), s.len() + 1) {
                Some((ms, j2)) => if spec_skip_ws(s, j2) == s.len() {
                    Some(ms)
                } else {
                    None
                },
                None => None,
            }
        }
    } else {
        None
    }
}

/// The value of the first member with this key.
pub open spec fn spec_field(fields: Seq<(Seq<u8>, GField)>, key: Seq<u8>) -> Option<GField>
    decreases fields.len(),
{
    if fields.len() == 0 {
        None
    } else if fields[0].0 == key {
        Some(fields[0].1)
    } else {
        spec_field(fields.drop_first(), key)
    }
}

/// The first position at or after `i` that is not whitespace.
fn skip_ws(s: &Vec<u8>, i: usize) -> (r: usize)
    requires
        i <= s@.len(),
    ensures
        r == spec_skip_ws(s@, i as int),
        i <= r <= s@.len(),
{
    let mut k = i;
    while k < s.len() && (s[k] == 32 || s[k] == 9 || s[k] == 10 || s[k] == 13)
        invariant
            i <= k <= s@.len(),
            spec_skip_ws(s@, i as int) == spec_skip_ws(s@, k as int),
        decreases s@.len() - k,
    {
        k = k + 1;
    }
    k
}

/// A string body read just after the opening quote.
fn scan_string(s: &Vec<u8>, i: usize) -> (r: Option<(Vec<u8>, usize)>)
    requires
        i <= s@.len(),
    ensures
        match r {
            Some(p) => spec_scan_string(s@, i as int, Seq::empty()) == Some((p.0@, p.1 as int))
                && i < p.1 <= s@.len(),
            None => spec_scan_string(s@, i as int, Seq::empty()) == None::<(Seq<u8>, int)>,
        },
{
    let mut acc: Vec<u8> = Vec::new();
    let mut k = i;
    loop
        invariant
            i <= k <= s@.len(),
            spec_scan_string(s@, i as int, Seq::empty()) == spec_scan_string(s@, k as int, acc@),
        decreases s@.len() - k,
    {
        if k >= s.len() {
            return None;
        }
        let b = s[k];
        if b == 34 {
            return Some((acc, k + 1));
        } else if b == 92 {
            if k + 1 >= s.len() {
                return None;
            }
            let ghost oacc = acc@;
            let e = s[k + 1];
            if e == 34 || e == 92 || e == 47 {
                acc.push(e);
                proof {
                    assert(acc@ =~= oacc + seq![e]);
                }
            } else if e == 110 {
                acc.push(10);
                proof {
                    assert(acc@ =~= oacc + seq![10u8]);
                }
            } else if e == 116 {
                acc.push(9);
                proof {
                    assert(acc@ =~= oacc + seq![9u8]);
                }
            } else if e == 114 {
                acc.push(13);
                proof {
                    assert(acc@ =~= oacc + seq![13u8]);
                }
            } else if e == 98 {
                acc.push(8);
                proof {
                    assert(acc@ =~= oacc + seq![8u8]);
                }
            } else if e == 102 {
                acc.push(12);
                proof {
                    assert(acc@ =~= oacc + seq![12u8]);
                }
            } else {
                return None;
            }
            k = k + 2;
        } else {
            let ghost oacc = acc@;
            acc.push(b);
            proof {
                assert(acc@ =~= oacc + seq![b]);
            }
            k = k + 1;
        }
    }
}

/// A value read at `i` (no leading whitespace).
fn parse_value(s: &Vec<u8>, i: usize) -> (r: Option<(FieldVal, usize)>)
    requires
        i <= s@.len(),
    ensures
        match r {
            Some(p) => spec_parse_value(s@, i as int) == Some((p.0.view_field(), p.1 as int)) && i
                < p.1 <= s@.len(),
            None => spec_parse_value(s@, i as int) == None::<(GField, int)>,
        },
{
    if i >= s.len() {
        return None;
    }
    let b = s[i];
    if b == 34 {
        match scan_string(s, i + 1) {
            Some((v, j)) => Some((FieldVal::S(v), j)),
            None => None,
        }
    } else if b == 116 {
        if s.len() - i >= 4 && s[i + 1] == 114 && s[i + 2] == 117 && s[i + 3] == 101 {
            proof {
                assert(s@.subrange(i as int, i + 4) =~= seq![116u8, 114, 117, 101]);
            }
            Some((FieldVal::B(true), i + 4))
        } else {
            proof {
                if i + 4 <= s@.len() {
                    assert(s@.subrange(i as int, i + 4)[1] == s@[i + 1]);
                    assert(s@.subrange(i as int, i + 4)[2] == s@[i + 2]);
                    assert(s@.subrange(i as int, i + 4)[3] == s@[i + 3]);
                }
            }
            None
        }
    } else if b == 102 {
        if s.len() - i >= 5 && s[i + 1] == 97 && s[i + 2] == 108 && s[i + 3] == 115 && s[i + 4]
            == 101 {
            proof {
                assert(s@.subrange(i as int, i + 5) =~= seq![102u8, 97, 108, 115, 101]);
            }
            Some((FieldVal::B(false), i + 5))
        } else {
            proof {
                if i + 5 <= s@.len() {
                    assert(s@.subrange(i as int, i + 5)[1] == s@[i + 1]);
                    assert(s@.subrange(i as int, i + 5)[2] == s@[i + 2]);
                    assert(s@.subrange(i as int, i + 5)[3] == s@[i + 3]);
                    assert(s@.subrange(i as int, i + 5)[4] == s@[i + 4]);
                }
            }
            None
        }
    } else if b == 110 {
        if s.len() - i >= 4 && s[i + 1] == 117 && s[i + 2] == 108 && s[i + 3] == 108 {
            proof {
                assert(s@.subrange(i as int, i + 4) =~= seq![110u8, 117, 108, 108]);
            }
            Some((FieldVal::Null, i + 4))
        } else {
            proof {
                if i + 4 <= s@.len() {
                    assert(s@.subrange(i as int, i + 4)[1] == s@[i + 1]);
                    assert(s@.subrange(i as int, i + 4)[2] == s@[i + 2]);
                    assert(s@.subrange(i as int, i + 4)[3] == s@[i + 3]);
                }
            }
            None
        }
    } else {
        match crate::codec::parse_i64_at(s, i) {
            Some((n, j)) => Some((FieldVal::I(n), j)),
            None => None,
        }
    }
}

/// The members of an object, read after the opening brace.
fn parse_members(s: &Vec<u8>, i: usize) -> (r: Option<(Vec<Member>, usize)>)
    requires
        i <= s@.len(),
    ensures
        match r {
            Some(p) => spec_parse_members(s@, i as int, Seq::empty(), s@.len() + 1) == Some(
                (spec_members_view(p.0@), p.1 as int),
            ) && p.1 <= s@.len(),
            None => spec_parse_members(s@, i as int, Seq::empty(), s@.len() + 1) == None::<
                (Seq<(Seq<u8>, GField)>, int),
            >,
        },
{
    let mut out: Vec<Member> = Vec::new();
    let mut pos = i;
    let mut fm1: usize = s.len();
    proof {
        assert(spec_members_view(out@) =~= Seq::<(Seq<u8>, GField)>::empty());
    }
    loop
        invariant
            pos <= s@.len(),
            spec_parse_members(s@, i as int, Seq::empty(), s@.len() + 1) == spec_parse_members(
                s@,
                pos as int,
                spec_members_view(out@),
                (fm1 + 1) as nat,
            ),
        decreases fm1,
    {
        let k = skip_ws(s, pos);
        if !(k < s.len() && s[k] == 34) {
            return None;
        }
        let (key, j1) = match scan_string(s, k + 1) {
            Some(p) => p,
            None => {
                return None;
            },
        };
        let j2 = skip_ws(s, j1);
        if !(j2 < s.len() && s[j2] == 58) {
            return None;
        }
        let j3 = skip_ws(s, j2 + 1);
        let (v, j4) = match parse_value(s, j3) {
            Some(p) => p,
            None => {
                return None;
            },
        };
        let j5 = skip_ws(s, j4);
        let ghost prev = spec_members_view(out@);
        let ghost kv = (key@, v.view_field());
        out.push(Member { key, val: v });
        proof {
            assert(spec_members_view(out@) =~= prev + seq![kv]);
        }
        if j5 < s.len() && s[j5] == 44 {
            proof {
                assert(spec_parse_members(s@, pos as int, prev, (fm1 + 1) as nat)
                    == spec_parse_members(
                    s@,
                    j5 + 1 as int,
                    spec_members_view(out@),
                    fm1 as nat,
                ));
            }
            if fm1 == 0 {
                return None;
            }
            fm1 = fm1 - 1;
            pos = j5 + 1;
        } else if j5 < s.len() && s[j5] == 125 {
            return Some((out, j5 + 1));
        } else {
            return None;
        }
    }
}

/// A whole body as a flat object.
pub fn parse_object(s: &Vec<u8>) -> (r: Option<Vec<Member>>)
    ensures
        match r {
            Some(ms) => spec_parse_object(s@) == Some(spec_members_view(ms@)),
            None => spec_parse_object(s@) == None::<Seq<(Seq<u8>, GField)>>,
        },
{
    let i = skip_ws(s, 0);
    if !(i < s.len() && s[i] == 123) {
        return None;
    }
    let j = skip_ws(s, i + 1);
    if j < s.len() && s[j] == 125 {
        if skip_ws(s, j + 1) == s.len() {
            proof {
                assert(spec_members_view(Seq::<Member>::empty()) =~= Seq::<
                    (Seq<u8>, GField),
                >::empty());
            }
            return Some(Vec::new());
        } else {
            return None;
        }
    }
    match parse_members(s, i + 1) {
        Some((ms, j2)) => {
            if skip_ws(s, j2) == s.len() {
                Some(ms)
            } else {
                None
            }
        },
        None => None,
    }
}

/// The value of the first member with this key.
fn find_field(ms: &Vec<Member>, key: &Vec<u8>) -> (r: Option<usize>)
    ensures
        match r {
            Some(i) => i < ms@.len() && ms@[i as int].key@ == key@ && spec_field(
                spec_members_view(ms@),
                key@,
            ) == Some(ms@[i as int].val.view_field()),
            None => spec_field(spec_members_view(ms@), key@) == None::<GField>,
        },
{
    let mut i: usize = 0;
    proof {
        assert(spec_members_view(ms@).skip(0) =~= spec_members_view(ms@));
    }
    while i < ms.len()
        invariant
            i <= ms@.len(),
            spec_field(spec_members_view(ms@), key@) == spec_field(
                spec_members_view(ms@).skip(i as int),
                key@,
            ),
        decreases ms@.len() - i,
    {
        proof {
            assert(spec_members_view(ms@).skip(i as int)[0] == (
                ms@[i as int].key@,
                ms@[i as int].val.view_field(),
            ));
            assert(spec_members_view(ms@).skip(i as int).drop_first() =~= spec_members_view(
                ms@,
            ).skip(i + 1));
        }
        if bytes_eq(&ms[i].key, key) {
            return Some(i);
        }
        i = i + 1;
    }
    proof {
        assert(spec_members_view(ms@).skip(i as int) =~= Seq::<(Seq<u8>, GField)>::empty());
    }
    None
}

/// The raw bytes of the string member `key`, when there is one and it is
/// a string.
pub open spec fn spec_str_field(fields: Seq<(Seq<u8>, GField)>, key: Seq<u8>) -> Option<Seq<u8>> {
    match spec_field(fields, key) {
        Some(f) => match f {
            GField::S(b) => Some(b),
            _ => None,
        },
        None => None,
    }
}

/// The string member `key` as an owned string, when present, a string,
/// and well-formed UTF-8.
fn str_field(ms: &Vec<Member>, key: &Vec<u8>) -> (r: Option<String>)
    ensures
        match r {
            Some(v) => spec_str_field(spec_members_view(ms@), key@) == Some(encode_utf8(v@)),
            None => match spec_str_field(spec_members_view(ms@), key@) {
                Some(b) => !valid_utf8(b),
                None => true,
            },
        },
{
    let i = match find_field(ms, key) {
        Some(i) => i,
        None => {
            return None;
        },
    };
    match &ms[i].val {
        FieldVal::S(v) => {
            let copy = copy_range(v, 0, v.len());
            proof {
                assert(copy@ =~= v@);
            }
            utf8_string(copy)
        },
        _ => None,
    }
}

/// A classified extractor failure: rule violations after a good parse, or
/// a parse failure of the body, the path, or the query string, each kept
/// apart.
#[derive(Debug)]
pub enum ParserError {
    ValidationErrors(Vec<Violation>),
    JsonRejection(String),
    PathRejection(PathErrorKind),
    QueryRejection(String),
}

/// What went wrong while reading path parameters.
#[derive(Debug)]
pub enum PathErrorKind {
    WrongNumberOfParameters { got: usize, expected: usize },
    ParseErrorAtKey { key: String, message: String },
    ParseErrorAtIndex { index: usize, message: String },
    ParseError { message: String },
    InvalidUtf8InPathParam { key: String, message: String },
    UnsupportedType { message: String },
    Message(String),
}

/// The body of a path-parameter failure: the status it travels with, the
/// message, and the offending field or position when determinable.
#[derive(Debug)]
pub struct PathError {
    pub code: u16,
    pub message: String,
    pub location: Option<String>,
}

/// Classifies a path-parameter failure: the location names the offending
/// key or index when one is known; a type the route declaration cannot
/// support is the server's fault and turns into 500.
pub fn handle_path_error(status: u16, kind: PathErrorKind) -> (r: (u16, PathError))
    ensures
        match kind {
            PathErrorKind::WrongNumberOfParameters { got, expected } => r.0 == status && r.1.code
                == status && r.1.message@ == "Wrong number of path parameters: expected "@
                + crate::bytesutil::spec_ascii_chars(spec_dec_digits(expected as nat)) + ", got "@
                + crate::bytesutil::spec_ascii_chars(spec_dec_digits(got as nat))
                && r.1.location is None,
            PathErrorKind::ParseErrorAtKey { key, message } => r.0 == status && r.1.code == status
                && r.1.message@ == message@ && (r.1.location matches Some(l) && l@ == key@),
            PathErrorKind::ParseErrorAtIndex { index, message } => r.0 == status && r.1.code
                == status && r.1.message@ == message@ && (r.1.location matches Some(l) && l@
                == crate::bytesutil::spec_ascii_chars(spec_dec_digits(index as nat))),
            PathErrorKind::ParseError { message } => r.0 == status && r.1.code == status
                && r.1.message@ == message@ && r.1.location is None,
            PathErrorKind::InvalidUtf8InPathParam { key, message } => r.0 == status && r.1.code
                == status && r.1.message@ == message@ && (r.1.location matches Some(l) && l@
                == key@),
            PathErrorKind::UnsupportedType { message } => r.0 == 500 && r.1.code == 500
                && r.1.message@ == message@ && r.1.location is None,
            PathErrorKind::Message(message) => r.0 == status && r.1.code == status && r.1.message@
                == message@ && r.1.location is None,
        },
{
    match kind {
        PathErrorKind::WrongNumberOfParameters { got, expected } => {
            let mut mb: Vec<u8> = Vec::new();
            push_dec_u64(&mut mb, expected as u64);
            proof {
                crate::numdec::lemma_dec_digits_are_digits(expected as nat);
                assert(mb@ =~= spec_dec_digits(expected as nat));
                assert(crate::bytesutil::spec_all_ascii(mb@));
            }
            let mut msg = String::from_str("Wrong number of path parameters: expected ");
            msg.append(crate::bytesutil::ascii_string(mb).as_str());
            msg.append(", got ");
            let mut gb: Vec<u8> = Vec::new();
            push_dec_u64(&mut gb, got as u64);
            proof {
                crate::numdec::lemma_dec_digits_are_digits(got as nat);
                assert(gb@ =~= spec_dec_digits(got as nat));
                assert(crate::bytesutil::spec_all_ascii(gb@));
            }
            msg.append(crate::bytesutil::ascii_string(gb).as_str());
            (status, PathError { code: status, message: msg, location: None })
        },
        PathErrorKind::ParseErrorAtKey { key, message } => (
            status,
            PathError { code: status, message, location: Some(key) },
        ),
        PathErrorKind::ParseErrorAtIndex { index, message } => {
            let mut ib: Vec<u8> = Vec::new();
            push_dec_u64(&mut ib, index as u64);
            proof {
                crate::numdec::lemma_dec_digits_are_digits(index as nat);
                assert(ib@ =~= spec_dec_digits(index as nat));
                assert(crate::bytesutil::spec_all_ascii(ib@));
            }
            let loc = crate::bytesutil::ascii_string(ib);
            (status, PathError { code: status, message, location: Some(loc) })
        },
        PathErrorKind::ParseError { message } => (
            status,
            PathError { code: status, message, location: None },
        ),
        PathErrorKind::InvalidUtf8InPathParam { key, message } => (
            status,
            PathError { code: status, message, location: Some(key) },
        ),
        PathErrorKind::UnsupportedType { message } => (
            500,
            PathError { code: 500, message, location: None },
        ),
        PathErrorKind::Message(message) => (
            status,
            PathError { code: status, message, location: None },
        ),
    }
}

/// The bytes of `,"location":`.
pub open spec fn spec_lit_location() -> Seq<u8> {
    seq![44u8, 34, 108, 111, 99, 97, 116, 105, 111, 110, 34, 58]
}

/// The JSON failure body with a location hint:
/// `{"statusCode":...,"message":"...","location":...}`, the location a
/// string or `null`.
pub open spec fn spec_located_body(status: int, msg: Seq<u8>, location: Option<Seq<u8>>) -> Seq<
    u8,
> {
    crate::errors::spec_lit_status_code() + spec_dec_digits(status as nat)
        + crate::errors::spec_lit_message() + crate::errors::spec_escape_bytes(msg) + seq![34u8]
        + spec_lit_location() + (match location {
        Some(l) => seq![34u8] + crate::errors::spec_escape_bytes(l) + seq![34u8],
        None => seq![110u8, 117, 108, 108],
    }) + seq![125u8]
}

/// Builds the JSON failure body with a location hint.
pub fn located_body(status: u16, message: &str, location: &Option<String>) -> (r: Vec<u8>)
    ensures
        r@ == spec_located_body(
            status as int,
            message.spec_bytes(),
            match location {
                Some(l) => Some(encode_utf8(l@)),
                None => None,
            },
        ),
{
    let ghost target = spec_located_body(
        status as int,
        message.spec_bytes(),
        match location {
            Some(l) => Some(encode_utf8(l@)),
            None => None,
        },
    );
    let mut out = crate::errors::error_body(status, message);
    // replace the closing brace with the location member
    out.pop();
    proof {
        assert(out@ =~= crate::errors::spec_lit_status_code() + spec_dec_digits(status as nat)
            + crate::errors::spec_lit_message() + crate::errors::spec_escape_bytes(
            message.spec_bytes(),
        ) + seq![34u8]);
    }
    out.push(44);
    out.push(34);
    out.push(108);
    out.push(111);
    out.push(99);
    out.push(97);
    out.push(116);
    out.push(105);
    out.push(111);
    out.push(110);
    out.push(34);
    out.push(58);
    match location {
        Some(l) => {
            out.push(34);
            let lb = l.as_str().as_bytes_vec();
            crate::errors::push_escaped(&mut out, &lb);
            out.push(34);
        },
        None => {
            out.push(110);
            out.push(117);
            out.push(108);
            out.push(108);
        },
    }
    out.push(125);
    proof {
        assert(out@ =~= target);
    }
    out
}

/// The message text of aggregated violations: one fixed message per
/// violated rule, joined with commas.
pub open spec fn spec_join_messages(vs: Seq<Violation>) -> Seq<char>
    decreases vs.len(),
{
    if vs.len() == 0 {
        Seq::empty()
    } else if vs.len() == 1 {
        vs[0].message@
    } else {
        vs[0].message@ + ", "@ + spec_join_messages(vs.drop_first())
    }
}

impl ParserError {
    /// The status this failure travels with.
    pub open spec fn spec_status(&self) -> int {
        match self {
            ParserError::ValidationErrors(_) => 400,
            ParserError::JsonRejection(_) => 400,
            ParserError::PathRejection(kind) => match kind {
                PathErrorKind::UnsupportedType { .. } => 500,
                _ => 400,
            },
            ParserError::QueryRejection(_) => 400,
        }
    }

    /// The status and JSON body of this failure.
    pub fn into_response(self) -> (r: (u16, Vec<u8>))
        ensures
            r.0 == self.spec_status(),
            (self matches ParserError::ValidationErrors(vs) ==> r.1@ == spec_located_body(
                400,
                encode_utf8("Input validation error: "@ + spec_join_messages(vs@)),
                None,
            )),
            (self matches ParserError::JsonRejection(m) ==> r.1@ == spec_located_body(
                400,
                encode_utf8(m@),
                None,
            )),
            (self matches ParserError::QueryRejection(m) ==> r.1@ == spec_located_body(
                400,
                encode_utf8(m@),
                None,
            )),
    {
        match self {
            ParserError::ValidationErrors(vs) => {
                let mut msg = String::from_str("Input validation error: ");
                let ghost pre = msg@;
                let mut i: usize = 0;
                proof {
                    assert(vs@.skip(0) =~= vs@);
                }
                while i < vs.len()
                    invariant
                        i <= vs@.len(),
                        msg@ + spec_join_messages(vs@.skip(i as int)) == pre + spec_join_messages(
                            vs@,
                        ),
                    decreases vs@.len() - i,
                {
                    msg.append(vs[i].message.as_str());
                    proof {
                        assert(vs@.skip(i as int)[0] == vs@[i as int]);
                        assert(vs@.skip(i as int).drop_first() =~= vs@.skip(i + 1));
                    }
                    if i + 1 < vs.len() {
                        msg.append(", ");
                        proof {
                            assert(msg@ + spec_join_messages(vs@.skip(i + 1)) =~= pre
                                + spec_join_messages(vs@));
                        }
                    } else {
                        proof {
                            assert(vs@.skip(i + 1) =~= Seq::<Violation>::empty());
                            assert(msg@ + spec_join_messages(vs@.skip(i + 1)) =~= pre
                                + spec_join_messages(vs@));
                        }
                    }
                    i = i + 1;
                }
                proof {
                    assert(vs@.skip(vs@.len() as int) =~= Seq::<Violation>::empty());
                    assert(msg@ =~= pre + spec_join_messages(vs@));
                }
                let body = located_body(400, msg.as_str(), &None);
                (400, body)
            },
            ParserError::JsonRejection(m) => {
                let body = located_body(400, m.as_str(), &None);
                (400, body)
            },
            ParserError::PathRejection(kind) => {
                let (status, pe) = handle_path_error(400, kind);
                let body = located_body(status, pe.message.as_str(), &pe.location);
                (status, body)
            },
            ParserError::QueryRejection(m) => {
                let body = located_body(400, m.as_str(), &None);
                (400, body)
            },
        }
    }
}

/// A request body, parsed and validated before any handler sees it.
#[derive(Debug)]
pub struct Body<T>(pub T);

/// Path parameters, parsed and validated before any handler sees them.
#[derive(Debug)]
pub struct Param<T>(pub T);

/// A query string, parsed and validated before any handler sees it.
#[derive(Debug)]
pub struct Query<T>(pub T);

/// The bytes of the member name `name`.
pub open spec fn spec_key_name() -> Seq<u8> {
    seq![110u8, 97, 109, 101]
}

/// The bytes of the member name `email`.
pub open spec fn spec_key_email() -> Seq<u8> {
    seq![101u8, 109, 97, 105, 108]
}

/// The bytes of the member name `password`.
pub open spec fn spec_key_password() -> Seq<u8> {
    seq![112u8, 97, 115, 115, 119, 111, 114, 100]
}

/// The bytes of the member name `uri`.
pub open spec fn spec_key_uri() -> Seq<u8> {
    seq![117u8, 114, 105]
}

/// The bytes of the member name `thoroughly`.
pub open spec fn spec_key_thoroughly() -> Seq<u8> {
    seq![116u8, 104, 111, 114, 111, 117, 103, 104, 108, 121]
}

/// The bytes of the member name `id`.
pub open spec fn spec_key_id() -> Seq<u8> {
    seq![105u8, 100]
}

/// The three raw string fields of a create-identity body, when the body
/// parses, carries all three as strings, and each is well-formed UTF-8.
pub open spec fn spec_create_user_shape(s: Seq<u8>) -> Option<(Seq<u8>, Seq<u8>, Seq<u8>)> {
    match spec_parse_object(s) {
        Some(fields) => match spec_str_field(fields, spec_key_name()) {
            Some(n) => match spec_str_field(fields, spec_key_email()) {
                Some(e) => match spec_str_field(fields, spec_key_password()) {
                    Some(p) => if valid_utf8(n) && valid_utf8(e) && valid_utf8(p) {
                        Some((n, e, p))
                    } else {
                        None
                    },
                    None => None,
                },
                None => None,
            },
            None => None,
        },
        None => None,
    }
}

/// The member name `name` as bytes.
fn key_name() -> (r: Vec<u8>)
    ensures
        r@ == spec_key_name(),
{
    let mut k: Vec<u8> = Vec::new();
    k.push(110);
    k.push(97);
    k.push(109);
    k.push(101);
    proof {
        assert(k@ =~= spec_key_name());
    }
    k
}

/// The member name `email` as bytes.
fn key_email() -> (r: Vec<u8>)
    ensures
        r@ == spec_key_email(),
{
    let mut k: Vec<u8> = Vec::new();
    k.push(101);
    k.push(109);
    k.push(97);
    k.push(105);
    k.push(108);
    proof {
        assert(k@ =~= spec_key_email());
    }
    k
}

/// The member name `password` as bytes.
fn key_password() -> (r: Vec<u8>)
    ensures
        r@ == spec_key_password(),
{
    let mut k: Vec<u8> = Vec::new();
    k.push(112);
    k.push(97);
    k.push(115);
    k.push(115);
    k.push(119);
    k.push(111);
    k.push(114);
    k.push(100);
    proof {
        assert(k@ =~= spec_key_password());
    }
    k
}

/// The body extractor for the create-identity target: the body is parsed
/// first; only a structurally valid one meets the rules, and every
/// violated rule is reported, not just the first.
pub fn body_create_user(bytes: &Vec<u8>) -> (r: Result<Body<CreateUserDto>, ParserError>)
    ensures
        (r matches Ok(b) ==> (spec_create_user_shape(bytes@) == Some(
            (encode_utf8(b.0.name@), encode_utf8(b.0.email@), encode_utf8(b.0.password@)),
        ) && !b.0.spec_name_bad() && !b.0.spec_email_bad() && !b.0.spec_password_bad())),
        (r matches Err(e) ==> match e {
            ParserError::JsonRejection(_) => spec_create_user_shape(bytes@) is None,
            ParserError::ValidationErrors(vs) => spec_create_user_shape(bytes@) matches Some(t3)
                && ({
                let nq = vstd::utf8::decode_utf8(t3.0);
                let eq = vstd::utf8::decode_utf8(t3.1);
                let pq = vstd::utf8::decode_utf8(t3.2);
                &&& vs@.len() >= 1
                &&& vs@.len() == (if nq.len() == 0 {
                    1int
                } else {
                    0
                }) + (if !email_ok(eq) {
                    1int
                } else {
                    0
                }) + (if pq.len() < 8 {
                    1int
                } else {
                    0
                })
                &&& (nq.len() == 0 ==> vs@[0].field@ == "name"@ && vs@[0].message@
                    == "Invalid name"@)
                &&& (!email_ok(eq) ==> {
                    let i = if nq.len() == 0 {
                        1int
                    } else {
                        0
                    };
                    vs@[i].field@ == "email"@ && vs@[i].message@ == "Invalid email"@
                })
                &&& (pq.len() < 8 ==> {
                    let i = (if nq.len() == 0 {
                        1int
                    } else {
                        0
                    }) + (if !email_ok(eq) {
                        1int
                    } else {
                        0
                    });
                    vs@[i].field@ == "password"@ && vs@[i].message@ == "Invalid password"@
                })
            }),
            _ => false,
        }),
{
    let ms = match parse_object(bytes) {
        Some(ms) => ms,
        None => {
            return Err(ParserError::JsonRejection(String::from_str("invalid request body")));
        },
    };
    let name = match str_field(&ms, &key_name()) {
        Some(v) => v,
        None => {
            return Err(ParserError::JsonRejection(String::from_str("missing field name")));
        },
    };
    let email = match str_field(&ms, &key_email()) {
        Some(v) => v,
        None => {
            return Err(ParserError::JsonRejection(String::from_str("missing field email")));
        },
    };
    let password = match str_field(&ms, &key_password()) {
        Some(v) => v,
        None => {
            return Err(ParserError::JsonRejection(String::from_str("missing field password")));
        },
    };
    proof {
        vstd::utf8::encode_utf8_decode_utf8(name@);
        vstd::utf8::encode_utf8_decode_utf8(email@);
        vstd::utf8::encode_utf8_decode_utf8(password@);
        vstd::utf8::encode_utf8_valid_utf8(name@);
        vstd::utf8::encode_utf8_valid_utf8(email@);
        vstd::utf8::encode_utf8_valid_utf8(password@);
    }
    let dto = CreateUserDto { name, email, password };
    let vs = dto.validate();
    if vs.len() > 0 {
        Err(ParserError::ValidationErrors(vs))
    } else {
        Ok(Body(dto))
    }
}

/// The login-body shape: the two raw string fields, when the body parses.
pub open spec fn spec_login_shape(s: Seq<u8>) -> Option<(Seq<u8>, Seq<u8>)> {
    match spec_parse_object(s) {
        Some(fields) => match spec_str_field(fields, spec_key_email()) {
            Some(e) => match spec_str_field(fields, spec_key_password()) {
                Some(p) => if valid_utf8(e) && valid_utf8(p) {
                    Some((e, p))
                } else {
                    None
                },
                None => None,
            },
            None => None,
        },
        None => None,
    }
}

/// The body extractor for the login target.
pub fn body_login(bytes: &Vec<u8>) -> (r: Result<Body<LoginUserDto>, ParserError>)
    ensures
        (r matches Ok(b) ==> (spec_login_shape(bytes@) == Some(
            (encode_utf8(b.0.email@), encode_utf8(b.0.password@)),
        ) && !b.0.spec_email_bad() && !b.0.spec_password_bad())),
        (r matches Err(e) ==> match e {
            ParserError::JsonRejection(_) => spec_login_shape(bytes@) is None,
            ParserError::ValidationErrors(vs) => spec_login_shape(bytes@) matches Some(t2) && ({
                let eq = vstd::utf8::decode_utf8(t2.0);
                let pq = vstd::utf8::decode_utf8(t2.1);
                &&& vs@.len() >= 1
                &&& vs@.len() == (if !email_ok(eq) {
                    1int
                } else {
                    0
                }) + (if pq.len() < 8 {
                    1int
                } else {
                    0
                })
                &&& (!email_ok(eq) ==> vs@[0].field@ == "email"@ && vs@[0].message@
                    == "Invalid email"@)
                &&& (pq.len() < 8 ==> {
                    let i = if !email_ok(eq) {
                        1int
                    } else {
                        0
                    };
                    vs@[i].field@ == "password"@ && vs@[i].message@ == "Invalid password"@
                })
            }),
            _ => false,
        }),
{
    let ms = match parse_object(bytes) {
        Some(ms) => ms,
        None => {
            return Err(ParserError::JsonRejection(String::from_str("invalid request body")));
        },
    };
    let email = match str_field(&ms, &key_email()) {
        Some(v) => v,
        None => {
            return Err(ParserError::JsonRejection(String::from_str("missing field email")));
        },
    };
    let password = match str_field(&ms, &key_password()) {
        Some(v) => v,
        None => {
            return Err(ParserError::JsonRejection(String::from_str("missing field password")));
        },
    };
    proof {
        vstd::utf8::encode_utf8_decode_utf8(email@);
        vstd::utf8::encode_utf8_decode_utf8(password@);
        vstd::utf8::encode_utf8_valid_utf8(email@);
        vstd::utf8::encode_utf8_valid_utf8(password@);
    }
    let dto = LoginUserDto { email, password };
    let vs = dto.validate();
    if vs.len() > 0 {
        Err(ParserError::ValidationErrors(vs))
    } else {
        Ok(Body(dto))
    }
}

/// The redirect-body shape: the optional `uri` member. An empty body is
/// the default-valued structure, since every field is optional.
pub open spec fn spec_redirect_shape(s: Seq<u8>) -> Option<Option<Seq<u8>>> {
    if spec_skip_ws(s, 0) == s.len() {
        Some(None)
    } else {
        match spec_parse_object(s) {
            Some(fields) => match spec_field(fields, spec_key_uri()) {
                None => Some(None),
                Some(f) => match f {
                    GField::Null => Some(None),
                    GField::S(b) => if valid_utf8(b) {
                        Some(Some(b))
                    } else {
                        None
                    },
                    _ => None,
                },
            },
            None => None,
        }
    }
}

/// The body extractor for the redirect target: an empty body is valid and
/// yields the default-valued structure.
pub fn body_redirect(bytes: &Vec<u8>) -> (r: Result<Body<RedirectParam>, ParserError>)
    ensures
        (r matches Ok(b) ==> spec_redirect_shape(bytes@) == Some(
            match b.0.uri {
                Some(u) => Some(encode_utf8(u@)),
                None => None,
            },
        )),
        (r matches Err(e) ==> e matches ParserError::JsonRejection(_) && spec_redirect_shape(
            bytes@,
        ) is None),
{
    let i = skip_ws(bytes, 0);
    if i == bytes.len() {
        return Ok(Body(RedirectParam { uri: None }));
    }
    let ms = match parse_object(bytes) {
        Some(ms) => ms,
        None => {
            return Err(ParserError::JsonRejection(String::from_str("invalid request body")));
        },
    };
    let mut k: Vec<u8> = Vec::new();
    k.push(117);
    k.push(114);
    k.push(105);
    proof {
        assert(k@ =~= spec_key_uri());
    }
    let idx = match find_field(&ms, &k) {
        Some(i) => i,
        None => {
            return Ok(Body(RedirectParam { uri: None }));
        },
    };
    match &ms[idx].val {
        FieldVal::Null => Ok(Body(RedirectParam { uri: None })),
        FieldVal::S(v) => {
            let copy = copy_range(v, 0, v.len());
            proof {
                assert(copy@ =~= v@);
            }
            match utf8_string(copy) {
                Some(u) => {
                    proof {
                        vstd::utf8::encode_utf8_decode_utf8(u@);
                        vstd::utf8::encode_utf8_valid_utf8(u@);
                    }
                    Ok(Body(RedirectParam { uri: Some(u) }))
                },
                None => Err(ParserError::JsonRejection(String::from_str("invalid field uri"))),
            }
        },
        _ => Err(ParserError::JsonRejection(String::from_str("invalid field uri"))),
    }
}

/// The value of the first `key=value` pair of a query string carrying
/// `key`, taken literally.
pub open spec fn spec_query_value(s: Seq<u8>, key: Seq<u8>) -> Option<Seq<u8>>
    decreases s.len(),
{
    let amp = crate::cookies::spec_index_of(s, 38);
    let seg = s.take(amp as int);
    let eq = crate::cookies::spec_index_of(seg, 61);
    if eq < seg.len() && seg.take(eq as int) == key {
        Some(seg.skip(eq as int + 1))
    } else if amp + 1 <= s.len() {
        spec_query_value(s.skip(amp as int + 1), key)
    } else {
        None
    }
}

/// The value of the first `key=value` pair carrying `key`.
fn query_value(s: &Vec<u8>, key: &Vec<u8>) -> (r: Option<Vec<u8>>)
    ensures
        match r {
            Some(v) => spec_query_value(s@, key@) == Some(v@),
            None => spec_query_value(s@, key@) is None,
        },
{
    let slen = s.len();
    let mut pos: usize = 0;
    proof {
        assert(s@.skip(0) =~= s@);
    }
    while pos <= slen
        invariant
            pos <= slen,
            slen == s@.len(),
            spec_query_value(s@, key@) == spec_query_value(s@.skip(pos as int), key@),
        decreases slen - pos + 1,
    {
        let ghost rest = s@.skip(pos as int);
        let amp = match crate::bytesutil::find_byte(s, pos, 38) {
            Some(j) => j,
            None => slen,
        };
        proof {
            assert forall|t: int| 0 <= t < amp - pos implies rest[t] != 38 by {
                assert(rest[t] == s@[pos + t]);
            }
            if amp < slen {
                assert(rest[amp - pos] == s@[amp as int]);
            }
            crate::cookies::lemma_index_of_at(rest, 38, amp - pos);
            assert(rest.take((amp - pos) as int) =~= s@.subrange(pos as int, amp as int));
        }
        let eq = match crate::bytesutil::find_byte(s, pos, 61) {
            Some(j) => if j < amp {
                j
            } else {
                amp
            },
            None => amp,
        };
        let ghost seg = rest.take((amp - pos) as int);
        proof {
            assert forall|t: int| 0 <= t < eq - pos implies seg[t] != 61 by {
                assert(seg[t] == s@[pos + t]);
            }
            if eq < amp {
                assert(seg[eq - pos] == s@[eq as int]);
            }
            crate::cookies::lemma_index_of_at(seg, 61, eq - pos);
        }
        if eq < amp {
            let nm = copy_range(s, pos, eq);
            proof {
                assert(seg.take((eq - pos) as int) =~= s@.subrange(pos as int, eq as int));
            }
            if bytes_eq(&nm, key) {
                let val = copy_range(s, eq + 1, amp);
                proof {
                    assert(seg.skip((eq - pos) as int + 1) =~= s@.subrange(
                        eq as int + 1,
                        amp as int,
                    ));
                    assert(spec_query_value(rest, key@) == Some(val@));
                }
                return Some(val);
            }
            proof {
                assert(seg.take((eq - pos) as int) != key@);
            }
        }
        if amp == slen {
            proof {
                assert(spec_query_value(rest, key@) is None);
            }
            return None;
        }
        proof {
            assert(rest.skip((amp - pos) as int + 1) =~= s@.skip(amp as int + 1));
        }
        pos = amp + 1;
    }
    proof {
        assert(s@.skip(pos as int) =~= Seq::<u8>::empty());
    }
    None
}

/// The `thoroughly` flag of a delete query: absent means unset; present
/// it must read `true` or `false`.
pub open spec fn spec_thoroughly_shape(s: Seq<u8>) -> Option<Option<bool>> {
    match spec_query_value(s, spec_key_thoroughly()) {
        None => Some(None),
        Some(v) => if v == seq![116u8, 114, 117, 101] {
            Some(Some(true))
        } else if v == seq![102u8, 97, 108, 115, 101] {
            Some(Some(false))
        } else {
            None
        },
    }
}

/// The query extractor for the delete target: the optional flag, parsed
/// strictly; the structure declares no rules, so validation never fails.
pub fn query_delete_user(query: &str) -> (r: Result<Query<DeleteUserDto>, ParserError>)
    ensures
        (r matches Ok(q) ==> spec_thoroughly_shape(query.spec_bytes()) == Some(q.0.thoroughly)),
        (r matches Err(e) ==> e matches ParserError::QueryRejection(_) && spec_thoroughly_shape(
            query.spec_bytes(),
        ) is None),
{
    let qb = query.as_bytes_vec();
    let mut k: Vec<u8> = Vec::new();
    k.push(116);
    k.push(104);
    k.push(111);
    k.push(114);
    k.push(111);
    k.push(117);
    k.push(103);
    k.push(104);
    k.push(108);
    k.push(121);
    proof {
        assert(k@ =~= spec_key_thoroughly());
    }
    match query_value(&qb, &k) {
        None => Ok(Query(DeleteUserDto { thoroughly: None })),
        Some(v) => {
            let mut tv: Vec<u8> = Vec::new();
            tv.push(116);
            tv.push(114);
            tv.push(117);
            tv.push(101);
            proof {
                assert(tv@ =~= seq![116u8, 114, 117, 101]);
            }
            if bytes_eq(&v, &tv) {
                return Ok(Query(DeleteUserDto { thoroughly: Some(true) }));
            }
            let mut fv: Vec<u8> = Vec::new();
            fv.push(102);
            fv.push(97);
            fv.push(108);
            fv.push(115);
            fv.push(101);
            proof {
                assert(fv@ =~= seq![102u8, 97, 108, 115, 101]);
            }
            if bytes_eq(&v, &fv) {
                return Ok(Query(DeleteUserDto { thoroughly: Some(false) }));
            }
            Err(ParserError::QueryRejection(String::from_str("invalid value for thoroughly")))
        },
    }
}

/// A path or query field holding one whole number that fills an `i32`:
/// the text must be the number and nothing else.
pub open spec fn spec_i32_text(s: Seq<u8>) -> Option<i64> {
    match spec_parse_i64(s, 0) {
        Some((n, j)) => if j == s.len() && i32::MIN <= n <= i32::MAX {
            Some(n)
        } else {
            None
        },
        None => None,
    }
}

/// The path extractor for the delete target: the one segment must be a
/// whole number, and the declared range rule runs on the parsed value.
pub fn param_delete_user(segment: &str) -> (r: Result<Param<DeleteUserParam>, ParserError>)
    ensures
        (r matches Ok(p) ==> spec_i32_text(segment.spec_bytes()) == Some(p.0.id as i64) && p.0.id
            >= 1),
        (r matches Err(e) ==> match e {
            ParserError::PathRejection(kind) => (kind matches PathErrorKind::ParseErrorAtKey {
                key,
                ..
            } && key@ == "id"@) && spec_i32_text(segment.spec_bytes()) is None,
            ParserError::ValidationErrors(vs) => spec_i32_text(segment.spec_bytes()) matches Some(
                n,
            ) && n < 1 && vs@.len() == 1 && vs@[0].field@ == "id"@ && vs@[0].message@
                == "Invalid id"@,
            _ => false,
        }),
{
    let sb = segment.as_bytes_vec();
    let blen = sb.len();
    let n = match crate::codec::parse_i64_at(&sb, 0) {
        Some((n, j)) => if j == blen && -2147483648i64 <= n && n <= 2147483647i64 {
            n
        } else {
            return Err(
                ParserError::PathRejection(
                    PathErrorKind::ParseErrorAtKey {
                        key: String::from_str("id"),
                        message: String::from_str("Cannot parse the path parameter as a number"),
                    },
                ),
            );
        },
        None => {
            return Err(
                ParserError::PathRejection(
                    PathErrorKind::ParseErrorAtKey {
                        key: String::from_str("id"),
                        message: String::from_str("Cannot parse the path parameter as a number"),
                    },
                ),
            );
        },
    };
    let dto = DeleteUserParam { id: n as i32 };
    let vs = dto.validate();
    if vs.len() > 0 {
        Err(ParserError::ValidationErrors(vs))
    } else {
        Ok(Param(dto))
    }
}

/// The query extractor for the post-lookup target: the `id` pair must be
/// a whole number, and the declared range rule runs on the parsed value.
pub fn query_post(query: &str) -> (r: Result<Query<QueryPostDto>, ParserError>)
    ensures
        (r matches Ok(q) ==> (match spec_query_value(query.spec_bytes(), spec_key_id()) {
            Some(v) => spec_i32_text(v) == Some(q.0.id as i64),
            None => false,
        }) && q.0.id >= 1),
        (r matches Err(e) ==> match e {
            ParserError::QueryRejection(_) => match spec_query_value(
                query.spec_bytes(),
                spec_key_id(),
            ) {
                Some(v) => spec_i32_text(v) is None,
                None => true,
            },
            ParserError::ValidationErrors(vs) => (match spec_query_value(
                query.spec_bytes(),
                spec_key_id(),
            ) {
                Some(v) => spec_i32_text(v) matches Some(n) && n < 1,
                None => false,
            }) && vs@.len() == 1 && vs@[0].field@ == "id"@ && vs@[0].message@ == "Invalid id"@,
            _ => false,
        }),
{
    let qb = query.as_bytes_vec();
    let mut k: Vec<u8> = Vec::new();
    k.push(105);
    k.push(100);
    proof {
        assert(k@ =~= spec_key_id());
    }
    let v = match query_value(&qb, &k) {
        Some(v) => v,
        None => {
            return Err(ParserError::QueryRejection(String::from_str("missing query field id")));
        },
    };
    let vlen = v.len();
    let n = match crate::codec::parse_i64_at(&v, 0) {
        Some((n, j)) => if j == vlen && -2147483648i64 <= n && n <= 2147483647i64 {
            n
        } else {
            return Err(
                ParserError::QueryRejection(String::from_str("invalid query field id")),
            );
        },
        None => {
            return Err(ParserError::QueryRejection(String::from_str("invalid query field id")));
        },
    };
    let dto = QueryPostDto { id: n as i32 };
    let vs = dto.validate();
    if vs.len() > 0 {
        Err(ParserError::ValidationErrors(vs))
    } else {
        Ok(Query(dto))
    }
}

} // verus!
