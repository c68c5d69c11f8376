use vstd::prelude::*;

verus! {

// Byte values the form grammar gives a meaning to.
pub const AMPERSAND: u8 = 38; // '&'
pub const EQUALS: u8 = 61; // '='
pub const PERCENT: u8 = 37; // '%'
pub const PLUS: u8 = 43; // '+'
pub const SPACE: u8 = 32; // ' '

/// The two caller-supplied fields of a subscription request, as decoded from
/// an application/x-www-form-urlencoded body.
#[derive(Debug)]
pub struct FormData {
    pub email: String,
    pub name: String,
}

/// Why a body was rejected: a required field is absent, or appears more than
/// once.  Every variant is answered with a client-error response.
#[derive(Clone, Copy, Debug, PartialEq, Eq, Structural)]
pub enum FormError {
    MissingEmail,
    MissingName,
    DuplicateEmail,
    DuplicateName,
}

pub open spec fn is_hex_digit(b: u8) -> bool {
    (48 <= b && b <= 57) || (65 <= b && b <= 70) || (97 <= b && b <= 102)
}

pub open spec fn hex_value(b: u8) -> u8
    recommends
        is_hex_digit(b),
{
    if 48 <= b && b <= 57 {
        (b - 48) as u8
    } else if 65 <= b && b <= 70 {
        (b - 55) as u8
    } else {
        (b - 87) as u8
    }
}

/// Decoding of one form component: '+' stands for a space, and '%' followed
/// by two hex digits stands for the byte they spell.  A '%' not followed by
/// two hex digits is kept literally.
pub open spec fn decode_bytes(s: Seq<u8>) -> Seq<u8>
    decreases s.len(),
{
    if s.len() == 0 {
        seq![]
    } else if s[0] == PERCENT && s.len() >= 3 && is_hex_digit(s[1]) && is_hex_digit(s[2]) {
        seq![(hex_value(s[1]) * 16 + hex_value(s[2])) as u8] + decode_bytes(s.skip(3))
    } else if s[0] == PLUS {
        seq![SPACE] + decode_bytes(s.skip(1))
    } else {
        seq![s[0]] + decode_bytes(s.skip(1))
    }
}

/// The part of a segment before its first '='; the whole segment when it has
/// no '='.
pub open spec fn key_of(seg: Seq<u8>) -> Seq<u8>
    decreases seg.len(),
{
    if seg.len() == 0 {
        seq![]
    } else if seg[0] == EQUALS {
        seq![]
    } else {
        seq![seg[0]] + key_of(seg.skip(1))
    }
}

/// The part of a segment after its first '='; empty when it has no '='.
pub open spec fn raw_value_of(seg: Seq<u8>) -> Seq<u8>
    decreases seg.len(),
{
    if seg.len() == 0 {
        seq![]
    } else if seg[0] == EQUALS {
        seg.skip(1)
    } else {
        raw_value_of(seg.skip(1))
    }
}

/// The decoded (key, value) pair a nonempty segment contributes.
pub open spec fn pair_of_segment(seg: Seq<u8>) -> (Seq<u8>, Seq<u8>) {
    (decode_bytes(key_of(seg)), decode_bytes(raw_value_of(seg)))
}

/// The body split on '&'.  Splitting never yields fewer than one segment:
/// the empty body is one empty segment.
pub open spec fn segments(s: Seq<u8>) -> Seq<Seq<u8>>
    decreases s.len(),
{
    if s.len() == 0 {
        seq![Seq::<u8>::empty()]
    } else {
        let rest = segments(s.drop_last());
        if s.last() == AMPERSAND {
            rest.push(Seq::<u8>::empty())
        } else {
            rest.update(rest.len() - 1, rest.last().push(s.last()))
        }
    }
}

/// The decoded pairs of a segment list, in order.  Empty segments (from
/// leading, trailing or doubled '&') contribute nothing.
pub open spec fn pairs_of_segments(segs: Seq<Seq<u8>>) -> Seq<(Seq<u8>, Seq<u8>)>
    decreases segs.len(),
{
    if segs.len() == 0 {
        seq![]
    } else {
        let rest = pairs_of_segments(segs.drop_last());
        if segs.last().len() == 0 {
            rest
        } else {
            rest.push(pair_of_segment(segs.last()))
        }
    }
}

/// All decoded (key, value) pairs of a form body, in order of appearance.
pub open spec fn form_pairs(body: Seq<u8>) -> Seq<(Seq<u8>, Seq<u8>)> {
    pairs_of_segments(segments(body))
}

/// How many pairs carry the given (already decoded) key.
pub open spec fn count_key(pairs: Seq<(Seq<u8>, Seq<u8>)>, key: Seq<u8>) -> nat
    decreases pairs.len(),
{
    if pairs.len() == 0 {
        0
    } else {
        count_key(pairs.drop_last(), key) + if pairs.last().0 == key {
            1nat
        } else {
            0nat
        }
    }
}

/// The value of the first pair carrying the given key; meaningful only when
/// such a pair exists.
pub open spec fn first_value(pairs: Seq<(Seq<u8>, Seq<u8>)>, key: Seq<u8>) -> Seq<u8>
    decreases pairs.len(),
{
    if pairs.len() == 0 {
        seq![]
    } else if count_key(pairs.drop_last(), key) == 0 && pairs.last().0 == key {
        pairs.last().1
    } else {
        first_value(pairs.drop_last(), key)
    }
}

/// The decoded bytes of the field name "email".
pub open spec fn email_key() -> Seq<u8> {
    seq![101u8, 109u8, 97u8, 105u8, 108u8]
}

/// The decoded bytes of the field name "name".
pub open spec fn name_key() -> Seq<u8> {
    seq![110u8, 97u8, 109u8, 101u8]
}

pub open spec fn clamp2(n: nat) -> nat {
    if n < 2 {
        n
    } else {
        2
    }
}

/// What parsing a body into FormData yields: the decoded email and name
/// values when each field appears exactly once, and the reason for rejection
/// otherwise.  Keys other than "email" and "name" are ignored.
pub open spec fn parse_outcome(body: Seq<u8>) -> Result<(Seq<u8>, Seq<u8>), FormError> {
    let pairs = form_pairs(body);
    if count_key(pairs, email_key()) >= 2 {
        Err(FormError::DuplicateEmail)
    } else if count_key(pairs, name_key()) >= 2 {
        Err(FormError::DuplicateName)
    } else if count_key(pairs, email_key()) == 0 {
        Err(FormError::MissingEmail)
    } else if count_key(pairs, name_key()) == 0 {
        Err(FormError::MissingName)
    } else {
        Ok((first_value(pairs, email_key()), first_value(pairs, name_key())))
    }
}

/// What String::from_utf8_lossy makes of a byte sequence.  The result is a
/// pure function of the bytes (invalid sequences become the replacement
/// character), so it is only named here, never spelled out.
pub uninterp spec fn utf8_lossy(bytes: Seq<u8>) -> Seq<char>;

/// Relies on String::from_utf8_lossy: turns bytes into text, replacing
/// invalid UTF-8 sequences with U+FFFD; the result depends on the bytes
/// alone.
#[verifier::external_body]
fn bytes_to_string(bytes: Vec<u8>) -> (r: String)
    ensures
        r@ == utf8_lossy(bytes@),
{
    String::from_utf8_lossy(&bytes).into_owned()
}

proof fn lemma_key_value_split(seg: Seq<u8>, i: int)
    requires
        0 <= i <= seg.len(),
        forall|j: int| 0 <= j < i ==> seg[j] != EQUALS,
        i < seg.len() ==> seg[i] == EQUALS,
    ensures
        key_of(seg) == seg.take(i),
        raw_value_of(seg) == if i < seg.len() {
            seg.skip(i + 1)
        } else {
            Seq::<u8>::empty()
        },
    decreases seg.len(),
{
    if seg.len() == 0 {
        assert(key_of(seg) =~= seg.take(i));
        assert(raw_value_of(seg) =~= Seq::<u8>::empty());
    } else if i == 0 {
        if i < seg.len() {
            assert(key_of(seg) =~= seg.take(0));
        }
    } else {
        assert(seg[0] != EQUALS);
        assert(forall|j: int| 0 <= j < i - 1 ==> seg.skip(1)[j] == seg[j + 1]);
        lemma_key_value_split(seg.skip(1), i - 1);
        assert(seq![seg[0]] + seg.skip(1).take(i - 1) =~= seg.take(i));
        if i < seg.len() {
            assert(seg.skip(1).skip(i) =~= seg.skip(i + 1));
        }
    }
}

fn hex_digit(b: u8) -> (r: Option<u8>)
    ensures
        r is Some <==> is_hex_digit(b),
        r matches Some(v) ==> v == hex_value(b) && v <= 15,
{
    if 48 <= b && b <= 57 {
        Some(b - 48)
    } else if 65 <= b && b <= 70 {
        Some(b - 55)
    } else if 97 <= b && b <= 102 {
        Some(b - 87)
    } else {
        None
    }
}

fn copy_range(s: &Vec<u8>, a: usize, b: usize) -> (r: Vec<u8>)
    requires
        a <= b && b <= s@.len(),
    ensures
        r@ == s@.subrange(a as int, b as int),
{
    let mut r: Vec<u8> = Vec::new();
    let mut j: usize = a;
    proof {
        assert(s@.subrange(a as int, a as int) =~= Seq::<u8>::empty());
    }
    while j < b
        invariant
            a <= j <= b <= s@.len(),
            r@ == s@.subrange(a as int, j as int),
        decreases b - j,
    {
        r.push(s[j]);
        proof {
            assert(s@.subrange(a as int, j as int + 1) =~= s@.subrange(a as int, j as int).push(
                s@[j as int],
            ));
        }
        j = j + 1;
    }
    r
}

/// Decode one component: '+' to space, valid '%'-escapes to their byte,
/// everything else kept as it stands.
fn decode_component(s: &Vec<u8>) -> (r: Vec<u8>)
    ensures
        r@ == decode_bytes(s@),
{
    let mut out: Vec<u8> = Vec::new();
    let mut i: usize = 0;
    proof {
        assert(s@.skip(0) =~= s@);
        assert(Seq::<u8>::empty() + decode_bytes(s@) =~= decode_bytes(s@));
    }
    while i < s.len()
        invariant
            i <= s@.len(),
            decode_bytes(s@) == out@ + decode_bytes(s@.skip(i as int)),
        decreases s@.len() - i,
    {
        let ghost rest = s@.skip(i as int);
        let ghost out0 = out@;
        let b = s[i];
        assert(rest[0] == b);
        if b == PERCENT && s.len() - i >= 3 {
            let h1 = hex_digit(s[i + 1]);
            let h2 = hex_digit(s[i + 2]);
            assert(rest[1] == s@[i as int + 1] && rest[2] == s@[i as int + 2]);
            if h1.is_some() && h2.is_some() {
                let v1 = h1.unwrap();
                let v2 = h2.unwrap();
                out.push(v1 * 16 + v2);
                proof {
                    let d = decode_bytes(s@.skip(i as int + 3));
                    assert(rest.skip(3) =~= s@.skip(i as int + 3));
                    assert(decode_bytes(rest) == seq![
                        (hex_value(rest[1]) * 16 + hex_value(rest[2])) as u8,
                    ] + d);
                    assert(out@ =~= out0 + seq![(v1 * 16 + v2) as u8]);
                    assert(out@ + d =~= out0 + decode_bytes(rest));
                }
                i = i + 3;
            } else {
                out.push(b);
                proof {
                    let d = decode_bytes(s@.skip(i as int + 1));
                    assert(rest.skip(1) =~= s@.skip(i as int + 1));
                    assert(decode_bytes(rest) == seq![b] + d);
                    assert(out@ =~= out0 + seq![b]);
                    assert(out@ + d =~= out0 + decode_bytes(rest));
                }
                i = i + 1;
            }
        } else if b == PLUS {
            out.push(SPACE);
            proof {
                let d = decode_bytes(s@.skip(i as int + 1));
                assert(rest.skip(1) =~= s@.skip(i as int + 1));
                assert(decode_bytes(rest) == seq![SPACE] + d);
                assert(out@ =~= out0 + seq![SPACE]);
                assert(out@ + d =~= out0 + decode_bytes(rest));
            }
            i = i + 1;
        } else {
            out.push(b);
            proof {
                let d = decode_bytes(s@.skip(i as int + 1));
                assert(rest.skip(1) =~= s@.skip(i as int + 1));
                assert(decode_bytes(rest) == seq![b] + d);
                assert(out@ =~= out0 + seq![b]);
                assert(out@ + d =~= out0 + decode_bytes(rest));
            }
            i = i + 1;
        }
    }
    proof {
        assert(s@.skip(s@.len() as int) =~= Seq::<u8>::empty());
        assert(out@ + decode_bytes(Seq::<u8>::empty()) =~= out@);
    }
    out
}

/// Split one segment at its first '=' into raw key and raw value.
fn split_segment(seg: &Vec<u8>) -> (r: (Vec<u8>, Vec<u8>))
    ensures
        r.0@ == key_of(seg@),
        r.1@ == raw_value_of(seg@),
{
    let mut i: usize = 0;
    while i < seg.len() && seg[i] != EQUALS
        invariant
            i <= seg@.len(),
            forall|j: int| 0 <= j < i ==> seg@[j] != EQUALS,
        decreases seg@.len() - i,
    {
        i = i + 1;
    }
    proof {
        lemma_key_value_split(seg@, i as int);
        assert(seg@.take(i as int) =~= seg@.subrange(0, i as int));
    }
    let key = copy_range(seg, 0, i);
    let val = if i < seg.len() {
        proof {
            assert(seg@.skip(i as int + 1) =~= seg@.subrange(i as int + 1, seg@.len() as int));
        }
        copy_range(seg, i + 1, seg.len())
    } else {
        Vec::new()
    };
    (key, val)
}

fn matches_email(k: &Vec<u8>) -> (r: bool)
    ensures
        r == (k@ == email_key()),
{
    let r = k.len() == 5 && k[0] == 101 && k[1] == 109 && k[2] == 97 && k[3] == 105 && k[4] == 108;
    proof {
        if r {
            assert(k@ =~= email_key());
        } else if k@ == email_key() {
            assert(k@.len() == 5);
            assert(k@[0] == 101 && k@[1] == 109 && k@[2] == 97 && k@[3] == 105 && k@[4] == 108);
        }
    }
    r
}

fn matches_name(k: &Vec<u8>) -> (r: bool)
    ensures
        r == (k@ == name_key()),
{
    let r = k.len() == 4 && k[0] == 110 && k[1] == 97 && k[2] == 109 && k[3] == 101;
    proof {
        if r {
            assert(k@ =~= name_key());
        } else if k@ == name_key() {
            assert(k@.len() == 4);
            assert(k@[0] == 110 && k@[1] == 97 && k@[2] == 109 && k@[3] == 101);
        }
    }
    r
}

/// Account one completed segment: decode it and, when its key is "email" or
/// "name", bump that field's (clamped) occurrence count and keep the first
/// value seen.
fn absorb_segment(
    seg: Vec<u8>,
    email_count: &mut u8,
    name_count: &mut u8,
    email_val: &mut Option<Vec<u8>>,
    name_val: &mut Option<Vec<u8>>,
)
    requires
        *old(email_count) <= 2,
        *old(name_count) <= 2,
    ensures
        seg@.len() == 0 ==> *final(email_count) == *old(email_count) && *final(name_count) == *old(
            name_count,
        ) && *final(email_val) == *old(email_val) && *final(name_val) == *old(name_val),
        seg@.len() > 0 ==> ({
            let x = pair_of_segment(seg@);
            &&& (x.0 == email_key() ==> {
                &&& *final(email_count) == (if *old(email_count) < 2 {
                    (*old(email_count) + 1) as u8
                } else {
                    *old(email_count)
                })
                &&& (*old(email_val) is None ==> ((*final(email_val)) matches Some(v) && v@ == x.1))
                &&& (*old(email_val) is Some ==> *final(email_val) == *old(email_val))
                &&& *final(name_count) == *old(name_count)
                &&& *final(name_val) == *old(name_val)
            })
            &&& (x.0 == name_key() ==> {
                &&& *final(name_count) == (if *old(name_count) < 2 {
                    (*old(name_count) + 1) as u8
                } else {
                    *old(name_count)
                })
                &&& (*old(name_val) is None ==> ((*final(name_val)) matches Some(v) && v@ == x.1))
                &&& (*old(name_val) is Some ==> *final(name_val) == *old(name_val))
                &&& *final(email_count) == *old(email_count)
                &&& *final(email_val) == *old(email_val)
            })
            &&& (x.0 != email_key() && x.0 != name_key() ==> *final(email_count) == *old(
                email_count,
            ) && *final(name_count) == *old(name_count) && *final(email_val) == *old(email_val)
                && *final(name_val) == *old(name_val))
        }),
{
    if seg.len() == 0 {
        return ;
    }
    let (key, val) = split_segment(&seg);
    let dk = decode_component(&key);
    let dv = decode_component(&val);
    assert(dk@ == pair_of_segment(seg@).0);
    assert(dv@ == pair_of_segment(seg@).1);
    if matches_email(&dk) {
        if *email_count < 2 {
            *email_count = *email_count + 1;
        }
        if email_val.is_none() {
            *email_val = Some(dv);
        }
    } else if matches_name(&dk) {
        if *name_count < 2 {
            *name_count = *name_count + 1;
        }
        if name_val.is_none() {
            *name_val = Some(dv);
        }
    }
}

/// Parse an application/x-www-form-urlencoded body into FormData.
///
/// The body is split on '&'; each nonempty segment is split at its first '='
/// into a key and a value, both decoded ('+' as space, '%'-escapes as the
/// byte they spell); pairs whose key is neither "email" nor "name" are
/// ignored.  Parsing succeeds when each of the two fields appears exactly
/// once, and reports the missing or duplicated field otherwise.
pub fn parse_form_data(body: &[u8]) -> (r: Result<FormData, FormError>)
    ensures
        match r {
            Ok(fd) => parse_outcome(body@) matches Ok(kv) && fd.email@ == utf8_lossy(kv.0)
                && fd.name@ == utf8_lossy(kv.1),
            Err(e) => parse_outcome(body@) matches Err(e2) && e == e2,
        },
{
    let mut email_count: u8 = 0;
    let mut name_count: u8 = 0;
    let mut email_val: Option<Vec<u8>> = None;
    let mut name_val: Option<Vec<u8>> = None;
    let mut cur: Vec<u8> = Vec::new();
    let mut i: usize = 0;
    proof {
        assert(body@.take(0) =~= Seq::<u8>::empty());
        assert(segments(body@.take(0)) == seq![Seq::<u8>::empty()]);
        assert(segments(body@.take(0)).drop_last() =~= Seq::<Seq<u8>>::empty());
        assert(pairs_of_segments(Seq::<Seq<u8>>::empty()) == Seq::<(Seq<u8>, Seq<u8>)>::empty());
    }
    while i < body.len()
        invariant
            i <= body@.len(),
            segments(body@.take(i as int)).len() >= 1,
            cur@ == segments(body@.take(i as int)).last(),
            email_count <= 2,
            name_count <= 2,
            ({
                let p = pairs_of_segments(segments(body@.take(i as int)).drop_last());
                &&& email_count as nat == clamp2(count_key(p, email_key()))
                &&& name_count as nat == clamp2(count_key(p, name_key()))
                &&& (email_val is Some <==> count_key(p, email_key()) >= 1)
                &&& (name_val is Some <==> count_key(p, name_key()) >= 1)
                &&& (email_val matches Some(v) ==> v@ == first_value(p, email_key()))
                &&& (name_val matches Some(v) ==> v@ == first_value(p, name_key()))
            }),
        decreases body@.len() - i,
    {
        let ghost segs_i = segments(body@.take(i as int));
        let ghost p_i = pairs_of_segments(segs_i.drop_last());
        let b = body[i];
        proof {
            assert(body@.take(i as int + 1).drop_last() =~= body@.take(i as int));
            assert(body@.take(i as int + 1).last() == b);
        }
        if b == AMPERSAND {
            proof {
                assert(segments(body@.take(i as int + 1)) == segs_i.push(Seq::<u8>::empty()));
                assert(segs_i.push(Seq::<u8>::empty()).drop_last() =~= segs_i);
            }
            let seg = cur;
            let ghost segv = seg@;
            cur = Vec::new();
            absorb_segment(seg, &mut email_count, &mut name_count, &mut email_val, &mut name_val);
            proof {
                assert(segs_i.drop_last().push(segs_i.last()) =~= segs_i);
                if segv.len() == 0 {
                    assert(pairs_of_segments(segs_i) == p_i);
                } else {
                    let x = pair_of_segment(segv);
                    assert(pairs_of_segments(segs_i) == p_i.push(x));
                    assert(p_i.push(x).drop_last() =~= p_i);
                    assert(count_key(p_i.push(x), email_key()) == count_key(p_i, email_key()) + (
                    if x.0 == email_key() {
                        1nat
                    } else {
                        0nat
                    }));
                    assert(count_key(p_i.push(x), name_key()) == count_key(p_i, name_key()) + (
                    if x.0 == name_key() {
                        1nat
                    } else {
                        0nat
                    }));
                    assert(first_value(p_i.push(x), email_key()) == (if count_key(p_i, email_key())
                        == 0 && x.0 == email_key() {
                        x.1
                    } else {
                        first_value(p_i, email_key())
                    }));
                    assert(first_value(p_i.push(x), name_key()) == (if count_key(p_i, name_key())
                        == 0 && x.0 == name_key() {
                        x.1
                    } else {
                        first_value(p_i, name_key())
                    }));
                }
            }
        } else {
            proof {
                let segs1 = segments(body@.take(i as int + 1));
                assert(segs1 == segs_i.update(segs_i.len() - 1, segs_i.last().push(b)));
                assert(segs1.drop_last() =~= segs_i.drop_last());
                assert(segs1.last() == segs_i.last().push(b));
            }
            cur.push(b);
        }
        i = i + 1;
    }
    proof {
        assert(body@.take(i as int) =~= body@);
    }
    let ghost segs = segments(body@);
    let ghost p = pairs_of_segments(segs.drop_last());
    let ghost segv = cur@;
    absorb_segment(cur, &mut email_count, &mut name_count, &mut email_val, &mut name_val);
    proof {
        assert(segs.drop_last().push(segs.last()) =~= segs);
        assert(form_pairs(body@) == pairs_of_segments(segs));
        if segv.len() == 0 {
            assert(pairs_of_segments(segs) == p);
        } else {
            let x = pair_of_segment(segv);
            assert(pairs_of_segments(segs) == p.push(x));
            assert(p.push(x).drop_last() =~= p);
            assert(count_key(p.push(x), email_key()) == count_key(p, email_key()) + (
            if x.0 == email_key() {
                1nat
            } else {
                0nat
            }));
            assert(count_key(p.push(x), name_key()) == count_key(p, name_key()) + (
            if x.0 == name_key() {
                1nat
            } else {
                0nat
            }));
            assert(first_value(p.push(x), email_key()) == (if count_key(p, email_key()) == 0 && x.0
                == email_key() {
                x.1
            } else {
                first_value(p, email_key())
            }));
            assert(first_value(p.push(x), name_key()) == (if count_key(p, name_key()) == 0 && x.0
                == name_key() {
                x.1
            } else {
                first_value(p, name_key())
            }));
        }
    }
    if email_count >= 2 {
        return Err(FormError::DuplicateEmail);
    }
    if name_count >= 2 {
        return Err(FormError::DuplicateName);
    }
    match email_val {
        None => Err(FormError::MissingEmail),
        Some(ev) => match name_val {
            None => Err(FormError::MissingName),
            Some(nv) => {
                let email_s = bytes_to_string(ev);
                let name_s = bytes_to_string(nv);
                Ok(FormData { email: email_s, name: name_s })
            },
        },
    }
}

} // verus!
