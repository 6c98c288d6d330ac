//! The message catalog.
//!
//! The closed set of request variants, each bound to one response shape,
//! and the binary codecs for the bodies that travel inside frames. Adding a
//! request variant means adding a tag, a message variant, a response
//! variant and one dispatch arm; the framing and session logic stay
//! untouched.

use vstd::prelude::*;

use vstd::utf8::encode_utf8;

use crate::db;
use crate::deployment::nginx::{NginxConfig, NginxConfigView, NginxLocation, NginxLocationView};
use crate::deployment::systemd::{spec_pairs_view, SysdServiceConfig, SystemdConfig, SystemdConfigView};
use crate::deployment::{Deployment, DeploymentView};
use crate::error::{
    DecodeError, PiteriaError, PiteriaErrorView, PiteriaIOError, PiteriaIOErrorView,
};
use crate::socket::codec::{
    dec_i64, dec_str, dec_u64, enc_i64_into, enc_str_into, enc_u64_into, lemma_dec_enc_i64,
    lemma_dec_enc_str, lemma_dec_enc_u64, spec_dec_i64, spec_dec_str, spec_dec_u64, spec_enc_i64,
    spec_enc_str, spec_enc_u64,
};
use crate::socket::{PiteriaRequest, PiteriaTag};

verus! {

// ---------------------------------------------------------------------------
// the request catalog
// ---------------------------------------------------------------------------

/// Liveness check; answered by the same acknowledgement.
#[derive(Debug)]
pub struct Hello;

/// Listing of all deployment rows.
#[derive(Debug)]
pub struct Overview;

/// Lookup of one deployment's full record by id.
#[derive(Debug)]
pub struct ViewDeployment(pub i64);

/// The closed set of requests a client can make.
#[derive(Debug, Clone, Copy, PartialEq, Eq, Structural)]
pub enum PiteriaMessage {
    Hello,
    Overview,
    ViewDeployment(i64),
}

impl PiteriaMessage {
    /// The tag this request travels under.
    pub open spec fn spec_tag(self) -> PiteriaTag {
        match self {
            PiteriaMessage::Hello => PiteriaTag::Hello,
            PiteriaMessage::Overview => PiteriaTag::Overview,
            PiteriaMessage::ViewDeployment(_) => PiteriaTag::ViewDeployment,
        }
    }

    /// The request's encoded body: empty but for the lookup's id.
    pub open spec fn spec_body(self) -> Seq<u8> {
        match self {
            PiteriaMessage::Hello => Seq::empty(),
            PiteriaMessage::Overview => Seq::empty(),
            PiteriaMessage::ViewDeployment(id) => spec_enc_i64(id),
        }
    }

    pub fn tag(&self) -> (t: PiteriaTag)
        ensures
            t == self.spec_tag(),
    {
        match self {
            PiteriaMessage::Hello => PiteriaTag::Hello,
            PiteriaMessage::Overview => PiteriaTag::Overview,
            PiteriaMessage::ViewDeployment(_) => PiteriaTag::ViewDeployment,
        }
    }

    pub fn encode_body(&self) -> (b: Vec<u8>)
        ensures
            b@ == self.spec_body(),
    {
        let mut out: Vec<u8> = Vec::new();
        match self {
            PiteriaMessage::Hello => {},
            PiteriaMessage::Overview => {},
            PiteriaMessage::ViewDeployment(id) => {
                enc_i64_into(&mut out, *id);
            },
        }
        proof {
            assert(out@ =~= self.spec_body());
        }
        out
    }

    /// The envelope this request travels in.
    pub fn to_request(&self) -> (r: PiteriaRequest)
        ensures
            r.tag == self.spec_tag(),
            r.message@ == self.spec_body(),
    {
        PiteriaRequest { tag: self.tag(), message: self.encode_body() }
    }
}

impl Hello {
    /// The message this request stands for.
    pub fn message(&self) -> (m: PiteriaMessage)
        ensures
            m == PiteriaMessage::Hello,
    {
        PiteriaMessage::Hello
    }

    /// The envelope this request travels in.
    pub fn to_request(&self) -> (r: PiteriaRequest)
        ensures
            r.tag == PiteriaTag::Hello,
            r.message@ == PiteriaMessage::Hello.spec_body(),
    {
        self.message().to_request()
    }
}

impl Overview {
    /// The message this request stands for.
    pub fn message(&self) -> (m: PiteriaMessage)
        ensures
            m == PiteriaMessage::Overview,
    {
        PiteriaMessage::Overview
    }

    /// The envelope this request travels in.
    pub fn to_request(&self) -> (r: PiteriaRequest)
        ensures
            r.tag == PiteriaTag::Overview,
            r.message@ == PiteriaMessage::Overview.spec_body(),
    {
        self.message().to_request()
    }
}

impl ViewDeployment {
    /// The message this request stands for.
    pub fn message(&self) -> (m: PiteriaMessage)
        ensures
            m == PiteriaMessage::ViewDeployment(self.0),
    {
        PiteriaMessage::ViewDeployment(self.0)
    }

    /// The envelope this request travels in.
    pub fn to_request(&self) -> (r: PiteriaRequest)
        ensures
            r.tag == PiteriaTag::ViewDeployment,
            r.message@ == PiteriaMessage::ViewDeployment(self.0).spec_body(),
    {
        self.message().to_request()
    }
}

/// Decode a request body by its tag. The liveness and listing requests
/// carry no payload and their body is ignored, as the dispatcher never
/// reads it; the lookup's body must be exactly one encoded id.
pub open spec fn spec_dec_message(tag: PiteriaTag, body: Seq<u8>) -> Result<
    PiteriaMessage,
    DecodeError,
> {
    match tag {
        PiteriaTag::Hello => Ok(PiteriaMessage::Hello),
        PiteriaTag::Overview => Ok(PiteriaMessage::Overview),
        PiteriaTag::ViewDeployment => match spec_dec_i64(body, 0) {
            Some((id, p)) => {
                if p == body.len() {
                    Ok(PiteriaMessage::ViewDeployment(id))
                } else {
                    Err(DecodeError::TrailingBytes)
                }
            },
            None => Err(DecodeError::Truncated),
        },
    }
}

/// Decode an envelope's body into the typed request.
pub fn decode_message(req: &PiteriaRequest) -> (r: Result<PiteriaMessage, DecodeError>)
    ensures
        r == spec_dec_message(req.tag, req.message@),
{
    match req.tag {
        PiteriaTag::Hello => Ok(PiteriaMessage::Hello),
        PiteriaTag::Overview => Ok(PiteriaMessage::Overview),
        PiteriaTag::ViewDeployment => match dec_i64(req.message.as_slice(), 0) {
            Some((id, p)) => {
                if p == req.message.len() {
                    Ok(PiteriaMessage::ViewDeployment(id))
                } else {
                    Err(DecodeError::TrailingBytes)
                }
            },
            None => Err(DecodeError::Truncated),
        },
    }
}

/// Decoding a request body inverts encoding it: with the envelope's own
/// round trip, every request crosses the wire unchanged.
pub proof fn lemma_message_round_trip(m: PiteriaMessage)
    ensures
        spec_dec_message(m.spec_tag(), m.spec_body()) == Ok::<PiteriaMessage, DecodeError>(m),
{
    match m {
        PiteriaMessage::ViewDeployment(id) => {
            let b = spec_enc_i64(id);
            vstd::bytes::lemma_auto_spec_u64_to_from_le_bytes();
            assert(b.subrange(0, 8) =~= b);
            lemma_dec_enc_i64(b, 0, id);
        },
        _ => {},
    }
}

// ---------------------------------------------------------------------------
// shared list codecs
// ---------------------------------------------------------------------------

/// A list of key/value pairs, as char sequences.
pub type PairsView = Seq<(Seq<char>, Seq<char>)>;

/// Fits on the wire: the UTF-8 form's length fits the length field.
pub open spec fn str_fits(s: Seq<char>) -> bool {
    encode_utf8(s).len() <= u64::MAX
}

pub open spec fn pairs_fit(ps: PairsView) -> bool {
    &&& ps.len() <= u64::MAX
    &&& forall|i: int| 0 <= i < ps.len() ==> str_fits(#[trigger] ps[i].0) && str_fits(ps[i].1)
}

pub open spec fn strs_fit(xs: Seq<Seq<char>>) -> bool {
    &&& xs.len() <= u64::MAX
    &&& forall|i: int| 0 <= i < xs.len() ==> str_fits(#[trigger] xs[i])
}

/// The items of a pair list, each as two strings.
pub open spec fn spec_enc_pair_items(ps: PairsView) -> Seq<u8>
    decreases ps.len(),
{
    if ps.len() == 0 {
        Seq::empty()
    } else {
        spec_enc_str(ps[0].0) + spec_enc_str(ps[0].1) + spec_enc_pair_items(ps.drop_first())
    }
}

/// A pair list: its count, then its items.
pub open spec fn spec_enc_pairs(ps: PairsView) -> Seq<u8> {
    spec_enc_u64(ps.len() as u64) + spec_enc_pair_items(ps)
}

pub open spec fn spec_dec_pair_items(b: Seq<u8>, pos: int, n: nat) -> Option<(PairsView, int)>
    decreases n,
{
    if n == 0 {
        Some((Seq::empty(), pos))
    } else {
        match spec_dec_str(b, pos) {
            None => None,
            Some((k, p)) => match spec_dec_str(b, p) {
                None => None,
                Some((v, q)) => match spec_dec_pair_items(b, q, (n - 1) as nat) {
                    None => None,
                    Some((rest, r)) => Some((seq![(k, v)] + rest, r)),
                },
            },
        }
    }
}

pub open spec fn spec_dec_pairs(b: Seq<u8>, pos: int) -> Option<(PairsView, int)> {
    match spec_dec_u64(b, pos) {
        None => None,
        Some((n, p)) => spec_dec_pair_items(b, p, n as nat),
    }
}

proof fn lemma_enc_pair_items_snoc(ps: PairsView, x: (Seq<char>, Seq<char>))
    ensures
        spec_enc_pair_items(ps.push(x)) == spec_enc_pair_items(ps) + spec_enc_str(x.0)
            + spec_enc_str(x.1),
    decreases ps.len(),
{
    let p = ps.push(x);
    if ps.len() == 0 {
        assert(p[0] == x);
        assert(p.drop_first() =~= Seq::<(Seq<char>, Seq<char>)>::empty());
        assert(spec_enc_pair_items(p.drop_first()) =~= Seq::<u8>::empty());
        assert(spec_enc_pair_items(ps) =~= Seq::<u8>::empty());
        assert(spec_enc_pair_items(p) =~= spec_enc_pair_items(ps) + spec_enc_str(x.0)
            + spec_enc_str(x.1));
    } else {
        assert(p[0] == ps[0]);
        assert(p.drop_first() =~= ps.drop_first().push(x));
        lemma_enc_pair_items_snoc(ps.drop_first(), x);
        let a = spec_enc_str(ps[0].0) + spec_enc_str(ps[0].1);
        let c = spec_enc_pair_items(ps.drop_first());
        let d0 = spec_enc_str(x.0);
        let d1 = spec_enc_str(x.1);
        assert(spec_enc_pair_items(p) == a + ((c + d0) + d1));
        assert(spec_enc_pair_items(ps) == a + c);
        assert(a + ((c + d0) + d1) =~= ((a + c) + d0) + d1);
    }
}

/// Append the encoding of a pair vector to `out`.
pub fn enc_pairs_into(out: &mut Vec<u8>, ps: &Vec<(String, String)>)
    ensures
        final(out)@ == old(out)@ + spec_enc_pairs(spec_pairs_view(ps@)),
{
    let ghost pv = spec_pairs_view(ps@);
    enc_u64_into(out, ps.len() as u64);
    let ghost mid = out@;
    let mut i: usize = 0;
    while i < ps.len()
        invariant
            i <= ps@.len(),
            pv == spec_pairs_view(ps@),
            out@ == mid + spec_enc_pair_items(pv.subrange(0, i as int)),
        decreases ps@.len() - i,
    {
        enc_str_into(out, ps[i].0.as_str());
        enc_str_into(out, ps[i].1.as_str());
        i += 1;
        proof {
            assert(pv.subrange(0, i as int) =~= pv.subrange(0, i - 1).push(pv[i - 1]));
            lemma_enc_pair_items_snoc(pv.subrange(0, i - 1), pv[i - 1]);
            assert(out@ =~= mid + spec_enc_pair_items(pv.subrange(0, i as int)));
        }
    }
    proof {
        assert(pv.subrange(0, pv.len() as int) =~= pv);
        assert(out@ =~= old(out)@ + spec_enc_pairs(pv));
    }
}

/// Decode a pair list.
pub fn dec_pairs(buf: &[u8], pos: usize) -> (r: Option<(Vec<(String, String)>, usize)>)
    ensures
        match r {
            Some((ps, p)) => spec_dec_pairs(buf@, pos as int) == Some(
                (spec_pairs_view(ps@), p as int),
            ),
            None => spec_dec_pairs(buf@, pos as int) is None,
        },
{
    let (n, start) = match dec_u64(buf, pos) {
        Some(t) => t,
        None => {
            return None;
        },
    };
    let mut acc: Vec<(String, String)> = Vec::new();
    let mut cur: usize = start;
    let mut k: u64 = 0;
    proof {
        assert(spec_pairs_view(acc@) =~= Seq::<(Seq<char>, Seq<char>)>::empty());
    }
    while k < n
        invariant
            k <= n,
            cur <= buf@.len(),
            spec_dec_u64(buf@, pos as int) == Some((n, start as int)),
            ({
                let whole = spec_dec_pairs(buf@, pos as int);
                let tail = spec_dec_pair_items(buf@, cur as int, (n - k) as nat);
                whole == (match tail {
                    Some((rest, q)) => Some((spec_pairs_view(acc@) + rest, q)),
                    None => None::<(PairsView, int)>,
                })
            }),
        decreases n - k,
    {
        let (ks, p) = match dec_str(buf, cur) {
            Some(t) => t,
            None => {
                return None;
            },
        };
        let (vs, q) = match dec_str(buf, p) {
            Some(t) => t,
            None => {
                return None;
            },
        };
        proof {
            let ghost tail2 = spec_dec_pair_items(buf@, q as int, (n - k - 1) as nat);
            match tail2 {
                Some((rest, r)) => {
                    assert(spec_pairs_view(acc@.push((ks, vs))) =~= spec_pairs_view(acc@).push(
                        (ks@, vs@),
                    ));
                    assert(spec_pairs_view(acc@) + (seq![(ks@, vs@)] + rest) =~= spec_pairs_view(
                        acc@,
                    ).push((ks@, vs@)) + rest);
                },
                None => {},
            }
        }
        acc.push((ks, vs));
        cur = q;
        k += 1;
    }
    proof {
        assert(spec_pairs_view(acc@) + Seq::<(Seq<char>, Seq<char>)>::empty() =~= spec_pairs_view(
            acc@,
        ));
    }
    Some((acc, cur))
}

/// Decoding a pair list inverts encoding it.
pub proof fn lemma_dec_enc_pairs(b: Seq<u8>, pos: int, ps: PairsView)
    requires
        0 <= pos,
        pos + spec_enc_pairs(ps).len() <= b.len(),
        b.subrange(pos, pos + spec_enc_pairs(ps).len()) == spec_enc_pairs(ps),
        pairs_fit(ps),
    ensures
        spec_dec_pairs(b, pos) == Some((ps, pos + spec_enc_pairs(ps).len())),
{
    let e = spec_enc_pairs(ps);
    vstd::bytes::lemma_auto_spec_u64_to_from_le_bytes();
    assert(b.subrange(pos, pos + 8) =~= e.subrange(0, 8));
    assert(e.subrange(0, 8) =~= spec_enc_u64(ps.len() as u64));
    lemma_dec_enc_u64(b, pos, ps.len() as u64);
    assert(b.subrange(pos + 8, pos + e.len() as int) =~= e.subrange(8, e.len() as int));
    assert(e.subrange(8, e.len() as int) =~= spec_enc_pair_items(ps));
    lemma_dec_enc_pair_items(b, pos + 8, ps);
}

proof fn lemma_dec_enc_pair_items(b: Seq<u8>, pos: int, ps: PairsView)
    requires
        0 <= pos,
        pos + spec_enc_pair_items(ps).len() <= b.len(),
        b.subrange(pos, pos + spec_enc_pair_items(ps).len()) == spec_enc_pair_items(ps),
        forall|i: int| 0 <= i < ps.len() ==> str_fits(#[trigger] ps[i].0) && str_fits(ps[i].1),
    ensures
        spec_dec_pair_items(b, pos, ps.len() as nat) == Some(
            (ps, pos + spec_enc_pair_items(ps).len()),
        ),
    decreases ps.len(),
{
    if ps.len() == 0 {
        assert(ps =~= Seq::<(Seq<char>, Seq<char>)>::empty());
    } else {
        let e = spec_enc_pair_items(ps);
        let e0 = spec_enc_str(ps[0].0);
        let e1 = spec_enc_str(ps[0].1);
        let erest = spec_enc_pair_items(ps.drop_first());
        assert(e == e0 + e1 + erest);
        assert(b.subrange(pos, pos + e0.len() as int) =~= e.subrange(0, e0.len() as int));
        assert(e.subrange(0, e0.len() as int) =~= e0);
        lemma_dec_enc_str(b, pos, ps[0].0);
        let p = pos + e0.len() as int;
        assert(b.subrange(p, p + e1.len() as int) =~= e.subrange(
            e0.len() as int,
            e0.len() as int + e1.len() as int,
        ));
        assert(e.subrange(e0.len() as int, e0.len() as int + e1.len() as int) =~= e1);
        lemma_dec_enc_str(b, p, ps[0].1);
        let q = p + e1.len() as int;
        assert(b.subrange(q, q + erest.len() as int) =~= e.subrange(
            e0.len() as int + e1.len() as int,
            e.len() as int,
        ));
        assert(e.subrange(e0.len() as int + e1.len() as int, e.len() as int) =~= erest);
        assert forall|i: int|
            0 <= i < ps.drop_first().len() implies str_fits(#[trigger] ps.drop_first()[i].0)
            && str_fits(ps.drop_first()[i].1) by {
            assert(ps.drop_first()[i] == ps[i + 1]);
        }
        lemma_dec_enc_pair_items(b, q, ps.drop_first());
        assert(seq![(ps[0].0, ps[0].1)] + ps.drop_first() =~= ps);
        assert((ps[0].0, ps[0].1) == ps[0]);
    }
}

/// The items of a string list.
pub open spec fn spec_enc_str_items(xs: Seq<Seq<char>>) -> Seq<u8>
    decreases xs.len(),
{
    if xs.len() == 0 {
        Seq::empty()
    } else {
        spec_enc_str(xs[0]) + spec_enc_str_items(xs.drop_first())
    }
}

/// A string list: its count, then its items.
pub open spec fn spec_enc_strs(xs: Seq<Seq<char>>) -> Seq<u8> {
    spec_enc_u64(xs.len() as u64) + spec_enc_str_items(xs)
}

pub open spec fn spec_dec_str_items(b: Seq<u8>, pos: int, n: nat) -> Option<(Seq<Seq<char>>, int)>
    decreases n,
{
    if n == 0 {
        Some((Seq::empty(), pos))
    } else {
        match spec_dec_str(b, pos) {
            None => None,
            Some((s, p)) => match spec_dec_str_items(b, p, (n - 1) as nat) {
                None => None,
                Some((rest, q)) => Some((seq![s] + rest, q)),
            },
        }
    }
}

pub open spec fn spec_dec_strs(b: Seq<u8>, pos: int) -> Option<(Seq<Seq<char>>, int)> {
    match spec_dec_u64(b, pos) {
        None => None,
        Some((n, p)) => spec_dec_str_items(b, p, n as nat),
    }
}

proof fn lemma_enc_str_items_snoc(xs: Seq<Seq<char>>, x: Seq<char>)
    ensures
        spec_enc_str_items(xs.push(x)) == spec_enc_str_items(xs) + spec_enc_str(x),
    decreases xs.len(),
{
    let p = xs.push(x);
    if xs.len() == 0 {
        assert(p[0] == x);
        assert(p.drop_first() =~= Seq::<Seq<char>>::empty());
        assert(spec_enc_str_items(p.drop_first()) =~= Seq::<u8>::empty());
        assert(spec_enc_str_items(xs) =~= Seq::<u8>::empty());
        assert(spec_enc_str_items(p) =~= spec_enc_str_items(xs) + spec_enc_str(x));
    } else {
        assert(p[0] == xs[0]);
        assert(p.drop_first() =~= xs.drop_first().push(x));
        lemma_enc_str_items_snoc(xs.drop_first(), x);
        let a = spec_enc_str(xs[0]);
        let c = spec_enc_str_items(xs.drop_first());
        let d = spec_enc_str(x);
        assert(spec_enc_str_items(p) == a + (c + d));
        assert(spec_enc_str_items(xs) == a + c);
        assert(a + (c + d) =~= (a + c) + d);
    }
}

/// The view of a string vector.
pub open spec fn spec_strs_view(v: Seq<String>) -> Seq<Seq<char>> {
    v.map_values(|s: String| s@)
}

/// Append the encoding of a string vector to `out`.
pub fn enc_strs_into(out: &mut Vec<u8>, xs: &Vec<String>)
    ensures
        final(out)@ == old(out)@ + spec_enc_strs(spec_strs_view(xs@)),
{
    let ghost xv = spec_strs_view(xs@);
    enc_u64_into(out, xs.len() as u64);
    let ghost mid = out@;
    let mut i: usize = 0;
    while i < xs.len()
        invariant
            i <= xs@.len(),
            xv == spec_strs_view(xs@),
            out@ == mid + spec_enc_str_items(xv.subrange(0, i as int)),
        decreases xs@.len() - i,
    {
        enc_str_into(out, xs[i].as_str());
        i += 1;
        proof {
            assert(xv.subrange(0, i as int) =~= xv.subrange(0, i - 1).push(xv[i - 1]));
            lemma_enc_str_items_snoc(xv.subrange(0, i - 1), xv[i - 1]);
            assert(out@ =~= mid + spec_enc_str_items(xv.subrange(0, i as int)));
        }
    }
    proof {
        assert(xv.subrange(0, xv.len() as int) =~= xv);
        assert(out@ =~= old(out)@ + spec_enc_strs(xv));
    }
}

/// Decode a string list.
pub fn dec_strs(buf: &[u8], pos: usize) -> (r: Option<(Vec<String>, usize)>)
    ensures
        match r {
            Some((xs, p)) => spec_dec_strs(buf@, pos as int) == Some(
                (spec_strs_view(xs@), p as int),
            ),
            None => spec_dec_strs(buf@, pos as int) is None,
        },
{
    let (n, start) = match dec_u64(buf, pos) {
        Some(t) => t,
        None => {
            return None;
        },
    };
    let mut acc: Vec<String> = Vec::new();
    let mut cur: usize = start;
    let mut k: u64 = 0;
    proof {
        assert(spec_strs_view(acc@) =~= Seq::<Seq<char>>::empty());
    }
    while k < n
        invariant
            k <= n,
            cur <= buf@.len(),
            spec_dec_u64(buf@, pos as int) == Some((n, start as int)),
            ({
                let whole = spec_dec_strs(buf@, pos as int);
                let tail = spec_dec_str_items(buf@, cur as int, (n - k) as nat);
                whole == (match tail {
                    Some((rest, q)) => Some((spec_strs_view(acc@) + rest, q)),
                    None => None::<(Seq<Seq<char>>, int)>,
                })
            }),
        decreases n - k,
    {
        let (s, p) = match dec_str(buf, cur) {
            Some(t) => t,
            None => {
                return None;
            },
        };
        proof {
            let ghost tail2 = spec_dec_str_items(buf@, p as int, (n - k - 1) as nat);
            match tail2 {
                Some((rest, r)) => {
                    assert(spec_strs_view(acc@.push(s)) =~= spec_strs_view(acc@).push(s@));
                    assert(spec_strs_view(acc@) + (seq![s@] + rest) =~= spec_strs_view(acc@).push(
                        s@,
                    ) + rest);
                },
                None => {},
            }
        }
        acc.push(s);
        cur = p;
        k += 1;
    }
    proof {
        assert(spec_strs_view(acc@) + Seq::<Seq<char>>::empty() =~= spec_strs_view(acc@));
    }
    Some((acc, cur))
}

/// Decoding a string list inverts encoding it.
pub proof fn lemma_dec_enc_strs(b: Seq<u8>, pos: int, xs: Seq<Seq<char>>)
    requires
        0 <= pos,
        pos + spec_enc_strs(xs).len() <= b.len(),
        b.subrange(pos, pos + spec_enc_strs(xs).len()) == spec_enc_strs(xs),
        strs_fit(xs),
    ensures
        spec_dec_strs(b, pos) == Some((xs, pos + spec_enc_strs(xs).len())),
{
    let e = spec_enc_strs(xs);
    vstd::bytes::lemma_auto_spec_u64_to_from_le_bytes();
    assert(b.subrange(pos, pos + 8) =~= e.subrange(0, 8));
    assert(e.subrange(0, 8) =~= spec_enc_u64(xs.len() as u64));
    lemma_dec_enc_u64(b, pos, xs.len() as u64);
    assert(b.subrange(pos + 8, pos + e.len() as int) =~= e.subrange(8, e.len() as int));
    assert(e.subrange(8, e.len() as int) =~= spec_enc_str_items(xs));
    lemma_dec_enc_str_items(b, pos + 8, xs);
}

proof fn lemma_dec_enc_str_items(b: Seq<u8>, pos: int, xs: Seq<Seq<char>>)
    requires
        0 <= pos,
        pos + spec_enc_str_items(xs).len() <= b.len(),
        b.subrange(pos, pos + spec_enc_str_items(xs).len()) == spec_enc_str_items(xs),
        forall|i: int| 0 <= i < xs.len() ==> str_fits(#[trigger] xs[i]),
    ensures
        spec_dec_str_items(b, pos, xs.len() as nat) == Some(
            (xs, pos + spec_enc_str_items(xs).len()),
        ),
    decreases xs.len(),
{
    if xs.len() == 0 {
        assert(xs =~= Seq::<Seq<char>>::empty());
    } else {
        let e = spec_enc_str_items(xs);
        let e0 = spec_enc_str(xs[0]);
        let erest = spec_enc_str_items(xs.drop_first());
        assert(e == e0 + erest);
        assert(b.subrange(pos, pos + e0.len() as int) =~= e.subrange(0, e0.len() as int));
        assert(e.subrange(0, e0.len() as int) =~= e0);
        lemma_dec_enc_str(b, pos, xs[0]);
        let p = pos + e0.len() as int;
        assert(b.subrange(p, p + erest.len() as int) =~= e.subrange(
            e0.len() as int,
            e.len() as int,
        ));
        assert(e.subrange(e0.len() as int, e.len() as int) =~= erest);
        assert forall|i: int|
            0 <= i < xs.drop_first().len() implies str_fits(#[trigger] xs.drop_first()[i]) by {
            assert(xs.drop_first()[i] == xs[i + 1]);
        }
        lemma_dec_enc_str_items(b, p, xs.drop_first());
        assert(seq![xs[0]] + xs.drop_first() =~= xs);
    }
}

// ---------------------------------------------------------------------------
// the systemd config codec
// ---------------------------------------------------------------------------

pub open spec fn sysd_fits(v: SystemdConfigView) -> bool {
    &&& str_fits(v.file_location)
    &&& pairs_fit(v.unit)
    &&& pairs_fit(v.service)
    &&& pairs_fit(v.env)
    &&& pairs_fit(v.install)
}

/// A systemd config: its path, then its four parameter lists.
pub open spec fn spec_enc_sysd(v: SystemdConfigView) -> Seq<u8> {
    spec_enc_str(v.file_location) + spec_enc_pairs(v.unit) + spec_enc_pairs(v.service)
        + spec_enc_pairs(v.env) + spec_enc_pairs(v.install)
}

pub open spec fn spec_dec_sysd(b: Seq<u8>, pos: int) -> Option<(SystemdConfigView, int)> {
    match spec_dec_str(b, pos) {
        None => None,
        Some((file_location, p1)) => match spec_dec_pairs(b, p1) {
            None => None,
            Some((unit, p2)) => match spec_dec_pairs(b, p2) {
                None => None,
                Some((service, p3)) => match spec_dec_pairs(b, p3) {
                    None => None,
                    Some((env, p4)) => match spec_dec_pairs(b, p4) {
                        None => None,
                        Some((install, p5)) => Some(
                            (SystemdConfigView { file_location, unit, service, env, install }, p5),
                        ),
                    },
                },
            },
        },
    }
}

/// Append the encoding of a systemd config to `out`.
pub fn enc_sysd_into(out: &mut Vec<u8>, c: &SystemdConfig)
    ensures
        final(out)@ == old(out)@ + spec_enc_sysd(c@),
{
    enc_str_into(out, c.file_location.as_str());
    enc_pairs_into(out, &c.unit.params);
    enc_pairs_into(out, c.service.params());
    enc_pairs_into(out, c.service.env());
    enc_pairs_into(out, &c.install.params);
    proof {
        assert(out@ =~= old(out)@ + spec_enc_sysd(c@));
    }
}

/// Decode a systemd config.
pub fn dec_sysd(buf: &[u8], pos: usize) -> (r: Option<(SystemdConfig, usize)>)
    ensures
        match r {
            Some((c, p)) => spec_dec_sysd(buf@, pos as int) == Some((c@, p as int)),
            None => spec_dec_sysd(buf@, pos as int) is None,
        },
{
    let (file_location, p1) = match dec_str(buf, pos) {
        Some(t) => t,
        None => {
            return None;
        },
    };
    let (unit, p2) = match dec_pairs(buf, p1) {
        Some(t) => t,
        None => {
            return None;
        },
    };
    let (service, p3) = match dec_pairs(buf, p2) {
        Some(t) => t,
        None => {
            return None;
        },
    };
    let (env, p4) = match dec_pairs(buf, p3) {
        Some(t) => t,
        None => {
            return None;
        },
    };
    let (install, p5) = match dec_pairs(buf, p4) {
        Some(t) => t,
        None => {
            return None;
        },
    };
    let c = SystemdConfig {
        file_location,
        unit: crate::deployment::systemd::SysdUnitConfig { params: unit },
        service: SysdServiceConfig::new(service, env),
        install: crate::deployment::systemd::SysdInstallConfig { params: install },
    };
    Some((c, p5))
}

/// Decoding a systemd config inverts encoding it.
#[verifier::rlimit(60)]
pub proof fn lemma_dec_enc_sysd(b: Seq<u8>, pos: int, v: SystemdConfigView)
    requires
        0 <= pos,
        pos + spec_enc_sysd(v).len() <= b.len(),
        b.subrange(pos, pos + spec_enc_sysd(v).len()) == spec_enc_sysd(v),
        sysd_fits(v),
    ensures
        spec_dec_sysd(b, pos) == Some((v, pos + spec_enc_sysd(v).len())),
{
    let e0 = spec_enc_str(v.file_location);
    let e1 = spec_enc_pairs(v.unit);
    let e2 = spec_enc_pairs(v.service);
    let e3 = spec_enc_pairs(v.env);
    let e4 = spec_enc_pairs(v.install);
    let e = spec_enc_sysd(v);
    assert(e == e0 + e1 + e2 + e3 + e4);
    let p0 = pos;
    let p1 = p0 + e0.len() as int;
    let p2 = p1 + e1.len() as int;
    let p3 = p2 + e2.len() as int;
    let p4 = p3 + e3.len() as int;
    let p5 = p4 + e4.len() as int;
    assert(b.subrange(p0, p1) =~= e.subrange(0, e0.len() as int));
    assert(e.subrange(0, e0.len() as int) =~= e0);
    lemma_dec_enc_str(b, p0, v.file_location);
    assert(b.subrange(p1, p2) =~= e.subrange(p1 - pos, p2 - pos));
    assert(e.subrange(p1 - pos, p2 - pos) =~= e1);
    lemma_dec_enc_pairs(b, p1, v.unit);
    assert(b.subrange(p2, p3) =~= e.subrange(p2 - pos, p3 - pos));
    assert(e.subrange(p2 - pos, p3 - pos) =~= e2);
    lemma_dec_enc_pairs(b, p2, v.service);
    assert(b.subrange(p3, p4) =~= e.subrange(p3 - pos, p4 - pos));
    assert(e.subrange(p3 - pos, p4 - pos) =~= e3);
    lemma_dec_enc_pairs(b, p3, v.env);
    assert(b.subrange(p4, p5) =~= e.subrange(p4 - pos, p5 - pos));
    assert(e.subrange(p4 - pos, p5 - pos) =~= e4);
    lemma_dec_enc_pairs(b, p4, v.install);
}

// ---------------------------------------------------------------------------
// the nginx config codec
// ---------------------------------------------------------------------------

/// A single byte.
pub open spec fn spec_dec_u8(b: Seq<u8>, pos: int) -> Option<(u8, int)> {
    if 0 <= pos < b.len() {
        Some((b[pos], pos + 1))
    } else {
        None
    }
}

fn dec_u8(buf: &[u8], pos: usize) -> (r: Option<(u8, usize)>)
    ensures
        match r {
            Some((x, p)) => spec_dec_u8(buf@, pos as int) == Some((x, p as int)),
            None => spec_dec_u8(buf@, pos as int) is None,
        },
{
    if pos < buf.len() {
        Some((*vstd::slice::slice_index_get(buf, pos), pos + 1))
    } else {
        None
    }
}

/// An optional string: an absence byte, or a presence byte and the string.
pub open spec fn spec_enc_opt_str(s: Option<Seq<char>>) -> Seq<u8> {
    match s {
        None => seq![0u8],
        Some(t) => seq![1u8] + spec_enc_str(t),
    }
}

pub open spec fn spec_dec_opt_str(b: Seq<u8>, pos: int) -> Option<(Option<Seq<char>>, int)> {
    match spec_dec_u8(b, pos) {
        None => None,
        Some((tag, p)) => {
            if tag == 0 {
                Some((None, p))
            } else if tag == 1 {
                match spec_dec_str(b, p) {
                    None => None,
                    Some((t, q)) => Some((Some(t), q)),
                }
            } else {
                None
            }
        },
    }
}

fn enc_opt_str_into(out: &mut Vec<u8>, s: &Option<String>)
    ensures
        final(out)@ == old(out)@ + spec_enc_opt_str(
            match s {
                Some(t) => Some(t@),
                None => None,
            },
        ),
{
    match s {
        None => {
            out.push(0u8);
            proof {
                assert(out@ =~= old(out)@ + seq![0u8]);
            }
        },
        Some(t) => {
            out.push(1u8);
            enc_str_into(out, t.as_str());
            proof {
                assert(out@ =~= old(out)@ + (seq![1u8] + spec_enc_str(t@)));
            }
        },
    }
}

fn dec_opt_str(buf: &[u8], pos: usize) -> (r: Option<(Option<String>, usize)>)
    ensures
        match r {
            Some((s, p)) => spec_dec_opt_str(buf@, pos as int) == Some(
                (
                    match s {
                        Some(t) => Some(t@),
                        None => None,
                    },
                    p as int,
                ),
            ),
            None => spec_dec_opt_str(buf@, pos as int) is None,
        },
{
    match dec_u8(buf, pos) {
        None => None,
        Some((tag, p)) => {
            if tag == 0 {
                Some((None, p))
            } else if tag == 1 {
                match dec_str(buf, p) {
                    None => None,
                    Some((t, q)) => Some((Some(t), q)),
                }
            } else {
                None
            }
        },
    }
}

proof fn lemma_dec_enc_opt_str(b: Seq<u8>, pos: int, s: Option<Seq<char>>)
    requires
        0 <= pos,
        pos + spec_enc_opt_str(s).len() <= b.len(),
        b.subrange(pos, pos + spec_enc_opt_str(s).len()) == spec_enc_opt_str(s),
        match s {
            Some(t) => str_fits(t),
            None => true,
        },
    ensures
        spec_dec_opt_str(b, pos) == Some((s, pos + spec_enc_opt_str(s).len())),
{
    let e = spec_enc_opt_str(s);
    assert(b[pos] == e[0]);
    match s {
        None => {},
        Some(t) => {
            let et = spec_enc_str(t);
            assert(b.subrange(pos + 1, pos + 1 + et.len() as int) =~= e.subrange(
                1,
                e.len() as int,
            ));
            assert(e.subrange(1, e.len() as int) =~= et);
            lemma_dec_enc_str(b, pos + 1, t);
        },
    }
}

pub open spec fn loc_fits(l: NginxLocationView) -> bool {
    &&& strs_fit(l.paths)
    &&& pairs_fit(l.directives)
    &&& str_fits(l.proxy_pass)
}

/// One location block: its paths, directives, and proxy target.
pub open spec fn spec_enc_loc(l: NginxLocationView) -> Seq<u8> {
    spec_enc_strs(l.paths) + spec_enc_pairs(l.directives) + spec_enc_str(l.proxy_pass)
}

pub open spec fn spec_dec_loc(b: Seq<u8>, pos: int) -> Option<(NginxLocationView, int)> {
    match spec_dec_strs(b, pos) {
        None => None,
        Some((paths, p1)) => match spec_dec_pairs(b, p1) {
            None => None,
            Some((directives, p2)) => match spec_dec_str(b, p2) {
                None => None,
                Some((proxy_pass, p3)) => Some(
                    (NginxLocationView { paths, directives, proxy_pass }, p3),
                ),
            },
        },
    }
}

fn enc_loc_into(out: &mut Vec<u8>, l: &NginxLocation)
    ensures
        final(out)@ == old(out)@ + spec_enc_loc(l@),
{
    enc_strs_into(out, &l.paths);
    enc_pairs_into(out, &l.directives);
    enc_str_into(out, l.proxy_pass.as_str());
    proof {
        assert(out@ =~= old(out)@ + spec_enc_loc(l@));
    }
}

fn dec_loc(buf: &[u8], pos: usize) -> (r: Option<(NginxLocation, usize)>)
    ensures
        match r {
            Some((l, p)) => spec_dec_loc(buf@, pos as int) == Some((l@, p as int)),
            None => spec_dec_loc(buf@, pos as int) is None,
        },
{
    let (paths, p1) = match dec_strs(buf, pos) {
        Some(t) => t,
        None => {
            return None;
        },
    };
    let (directives, p2) = match dec_pairs(buf, p1) {
        Some(t) => t,
        None => {
            return None;
        },
    };
    let (proxy_pass, p3) = match dec_str(buf, p2) {
        Some(t) => t,
        None => {
            return None;
        },
    };
    Some((NginxLocation { paths, directives, proxy_pass }, p3))
}

proof fn lemma_dec_enc_loc(b: Seq<u8>, pos: int, l: NginxLocationView)
    requires
        0 <= pos,
        pos + spec_enc_loc(l).len() <= b.len(),
        b.subrange(pos, pos + spec_enc_loc(l).len()) == spec_enc_loc(l),
        loc_fits(l),
    ensures
        spec_dec_loc(b, pos) == Some((l, pos + spec_enc_loc(l).len())),
{
    let e0 = spec_enc_strs(l.paths);
    let e1 = spec_enc_pairs(l.directives);
    let e2 = spec_enc_str(l.proxy_pass);
    let e = spec_enc_loc(l);
    assert(e == e0 + e1 + e2);
    let p1 = pos + e0.len() as int;
    let p2 = p1 + e1.len() as int;
    let p3 = p2 + e2.len() as int;
    assert(b.subrange(pos, p1) =~= e.subrange(0, e0.len() as int));
    assert(e.subrange(0, e0.len() as int) =~= e0);
    lemma_dec_enc_strs(b, pos, l.paths);
    assert(b.subrange(p1, p2) =~= e.subrange(p1 - pos, p2 - pos));
    assert(e.subrange(p1 - pos, p2 - pos) =~= e1);
    lemma_dec_enc_pairs(b, p1, l.directives);
    assert(b.subrange(p2, p3) =~= e.subrange(p2 - pos, p3 - pos));
    assert(e.subrange(p2 - pos, p3 - pos) =~= e2);
    lemma_dec_enc_str(b, p2, l.proxy_pass);
}

pub open spec fn locs_fit(ls: Seq<NginxLocationView>) -> bool {
    &&& ls.len() <= u64::MAX
    &&& forall|i: int| 0 <= i < ls.len() ==> loc_fits(#[trigger] ls[i])
}

pub open spec fn spec_enc_loc_items(ls: Seq<NginxLocationView>) -> Seq<u8>
    decreases ls.len(),
{
    if ls.len() == 0 {
        Seq::empty()
    } else {
        spec_enc_loc(ls[0]) + spec_enc_loc_items(ls.drop_first())
    }
}

pub open spec fn spec_enc_locs(ls: Seq<NginxLocationView>) -> Seq<u8> {
    spec_enc_u64(ls.len() as u64) + spec_enc_loc_items(ls)
}

pub open spec fn spec_dec_loc_items(b: Seq<u8>, pos: int, n: nat) -> Option<
    (Seq<NginxLocationView>, int),
>
    decreases n,
{
    if n == 0 {
        Some((Seq::empty(), pos))
    } else {
        match spec_dec_loc(b, pos) {
            None => None,
            Some((l, p)) => match spec_dec_loc_items(b, p, (n - 1) as nat) {
                None => None,
                Some((rest, q)) => Some((seq![l] + rest, q)),
            },
        }
    }
}

pub open spec fn spec_dec_locs(b: Seq<u8>, pos: int) -> Option<(Seq<NginxLocationView>, int)> {
    match spec_dec_u64(b, pos) {
        None => None,
        Some((n, p)) => spec_dec_loc_items(b, p, n as nat),
    }
}

proof fn lemma_enc_loc_items_snoc(ls: Seq<NginxLocationView>, x: NginxLocationView)
    ensures
        spec_enc_loc_items(ls.push(x)) == spec_enc_loc_items(ls) + spec_enc_loc(x),
    decreases ls.len(),
{
    let p = ls.push(x);
    if ls.len() == 0 {
        assert(p[0] == x);
        assert(p.drop_first() =~= Seq::<NginxLocationView>::empty());
        assert(spec_enc_loc_items(p.drop_first()) =~= Seq::<u8>::empty());
        assert(spec_enc_loc_items(ls) =~= Seq::<u8>::empty());
        assert(spec_enc_loc_items(p) =~= spec_enc_loc_items(ls) + spec_enc_loc(x));
    } else {
        assert(p[0] == ls[0]);
        assert(p.drop_first() =~= ls.drop_first().push(x));
        lemma_enc_loc_items_snoc(ls.drop_first(), x);
        let a = spec_enc_loc(ls[0]);
        let c = spec_enc_loc_items(ls.drop_first());
        let d = spec_enc_loc(x);
        assert(spec_enc_loc_items(p) == a + (c + d));
        assert(spec_enc_loc_items(ls) == a + c);
        assert(a + (c + d) =~= (a + c) + d);
    }
}

fn enc_locs_into(out: &mut Vec<u8>, ls: &Vec<NginxLocation>)
    ensures
        final(out)@ == old(out)@ + spec_enc_locs(ls@.map_values(|l: NginxLocation| l@)),
{
    let ghost lv = ls@.map_values(|l: NginxLocation| l@);
    enc_u64_into(out, ls.len() as u64);
    let ghost mid = out@;
    let mut i: usize = 0;
    while i < ls.len()
        invariant
            i <= ls@.len(),
            lv == ls@.map_values(|l: NginxLocation| l@),
            out@ == mid + spec_enc_loc_items(lv.subrange(0, i as int)),
        decreases ls@.len() - i,
    {
        enc_loc_into(out, &ls[i]);
        i += 1;
        proof {
            assert(lv.subrange(0, i as int) =~= lv.subrange(0, i - 1).push(lv[i - 1]));
            lemma_enc_loc_items_snoc(lv.subrange(0, i - 1), lv[i - 1]);
            assert(out@ =~= mid + spec_enc_loc_items(lv.subrange(0, i as int)));
        }
    }
    proof {
        assert(lv.subrange(0, lv.len() as int) =~= lv);
        assert(out@ =~= old(out)@ + spec_enc_locs(lv));
    }
}

fn dec_locs(buf: &[u8], pos: usize) -> (r: Option<(Vec<NginxLocation>, usize)>)
    ensures
        match r {
            Some((ls, p)) => spec_dec_locs(buf@, pos as int) == Some(
                (ls@.map_values(|l: NginxLocation| l@), p as int),
            ),
            None => spec_dec_locs(buf@, pos as int) is None,
        },
{
    let (n, start) = match dec_u64(buf, pos) {
        Some(t) => t,
        None => {
            return None;
        },
    };
    let mut acc: Vec<NginxLocation> = Vec::new();
    let mut cur: usize = start;
    let mut k: u64 = 0;
    proof {
        assert(acc@.map_values(|l: NginxLocation| l@) =~= Seq::<NginxLocationView>::empty());
    }
    while k < n
        invariant
            k <= n,
            cur <= buf@.len(),
            spec_dec_u64(buf@, pos as int) == Some((n, start as int)),
            ({
                let whole = spec_dec_locs(buf@, pos as int);
                let tail = spec_dec_loc_items(buf@, cur as int, (n - k) as nat);
                whole == (match tail {
                    Some((rest, q)) => Some((acc@.map_values(|l: NginxLocation| l@) + rest, q)),
                    None => None::<(Seq<NginxLocationView>, int)>,
                })
            }),
        decreases n - k,
    {
        let (l, p) = match dec_loc(buf, cur) {
            Some(t) => t,
            None => {
                return None;
            },
        };
        proof {
            let ghost tail2 = spec_dec_loc_items(buf@, p as int, (n - k - 1) as nat);
            match tail2 {
                Some((rest, r)) => {
                    assert(acc@.push(l).map_values(|x: NginxLocation| x@) =~= acc@.map_values(
                        |x: NginxLocation| x@,
                    ).push(l@));
                    assert(acc@.map_values(|x: NginxLocation| x@) + (seq![l@] + rest)
                        =~= acc@.map_values(|x: NginxLocation| x@).push(l@) + rest);
                },
                None => {},
            }
        }
        acc.push(l);
        cur = p;
        k += 1;
    }
    proof {
        assert(acc@.map_values(|l: NginxLocation| l@) + Seq::<NginxLocationView>::empty()
            =~= acc@.map_values(|l: NginxLocation| l@));
    }
    Some((acc, cur))
}

proof fn lemma_dec_enc_loc_items(b: Seq<u8>, pos: int, ls: Seq<NginxLocationView>)
    requires
        0 <= pos,
        pos + spec_enc_loc_items(ls).len() <= b.len(),
        b.subrange(pos, pos + spec_enc_loc_items(ls).len()) == spec_enc_loc_items(ls),
        forall|i: int| 0 <= i < ls.len() ==> loc_fits(#[trigger] ls[i]),
    ensures
        spec_dec_loc_items(b, pos, ls.len() as nat) == Some(
            (ls, pos + spec_enc_loc_items(ls).len()),
        ),
    decreases ls.len(),
{
    if ls.len() == 0 {
        assert(ls =~= Seq::<NginxLocationView>::empty());
    } else {
        let e = spec_enc_loc_items(ls);
        let e0 = spec_enc_loc(ls[0]);
        let erest = spec_enc_loc_items(ls.drop_first());
        assert(e == e0 + erest);
        assert(b.subrange(pos, pos + e0.len() as int) =~= e.subrange(0, e0.len() as int));
        assert(e.subrange(0, e0.len() as int) =~= e0);
        lemma_dec_enc_loc(b, pos, ls[0]);
        let p = pos + e0.len() as int;
        assert(b.subrange(p, p + erest.len() as int) =~= e.subrange(
            e0.len() as int,
            e.len() as int,
        ));
        assert(e.subrange(e0.len() as int, e.len() as int) =~= erest);
        assert forall|i: int|
            0 <= i < ls.drop_first().len() implies loc_fits(#[trigger] ls.drop_first()[i]) by {
            assert(ls.drop_first()[i] == ls[i + 1]);
        }
        lemma_dec_enc_loc_items(b, p, ls.drop_first());
        assert(seq![ls[0]] + ls.drop_first() =~= ls);
    }
}

proof fn lemma_dec_enc_locs(b: Seq<u8>, pos: int, ls: Seq<NginxLocationView>)
    requires
        0 <= pos,
        pos + spec_enc_locs(ls).len() <= b.len(),
        b.subrange(pos, pos + spec_enc_locs(ls).len()) == spec_enc_locs(ls),
        locs_fit(ls),
    ensures
        spec_dec_locs(b, pos) == Some((ls, pos + spec_enc_locs(ls).len())),
{
    let e = spec_enc_locs(ls);
    vstd::bytes::lemma_auto_spec_u64_to_from_le_bytes();
    assert(b.subrange(pos, pos + 8) =~= e.subrange(0, 8));
    assert(e.subrange(0, 8) =~= spec_enc_u64(ls.len() as u64));
    lemma_dec_enc_u64(b, pos, ls.len() as u64);
    assert(b.subrange(pos + 8, pos + e.len() as int) =~= e.subrange(8, e.len() as int));
    assert(e.subrange(8, e.len() as int) =~= spec_enc_loc_items(ls));
    lemma_dec_enc_loc_items(b, pos + 8, ls);
}

pub open spec fn nginx_fits(v: NginxConfigView) -> bool {
    &&& str_fits(v.file_location)
    &&& 0 <= v.listen <= usize::MAX
    &&& str_fits(v.server_name)
    &&& match v.access_log {
        Some(t) => str_fits(t),
        None => true,
    }
    &&& locs_fit(v.location)
}

/// An nginx config: its path, port, server name, optional log, locations.
pub open spec fn spec_enc_nginx(v: NginxConfigView) -> Seq<u8> {
    spec_enc_str(v.file_location) + spec_enc_u64(v.listen as u64) + spec_enc_str(v.server_name)
        + spec_enc_opt_str(v.access_log) + spec_enc_locs(v.location)
}

pub open spec fn spec_dec_nginx(b: Seq<u8>, pos: int) -> Option<(NginxConfigView, int)> {
    match spec_dec_str(b, pos) {
        None => None,
        Some((file_location, p1)) => match spec_dec_u64(b, p1) {
            None => None,
            Some((listen, p2)) => {
                if listen <= usize::MAX {
                    match spec_dec_str(b, p2) {
                        None => None,
                        Some((server_name, p3)) => match spec_dec_opt_str(b, p3) {
                            None => None,
                            Some((access_log, p4)) => match spec_dec_locs(b, p4) {
                                None => None,
                                Some((location, p5)) => Some(
                                    (
                                        NginxConfigView {
                                            file_location,
                                            listen: listen as int,
                                            server_name,
                                            access_log,
                                            location,
                                        },
                                        p5,
                                    ),
                                ),
                            },
                        },
                    }
                } else {
                    None
                }
            },
        },
    }
}

/// Append the encoding of an nginx config to `out`.
pub fn enc_nginx_into(out: &mut Vec<u8>, c: &NginxConfig)
    ensures
        final(out)@ == old(out)@ + spec_enc_nginx(c@),
{
    enc_str_into(out, c.file_location.as_str());
    enc_u64_into(out, c.listen as u64);
    enc_str_into(out, c.server_name.as_str());
    enc_opt_str_into(out, &c.access_log);
    enc_locs_into(out, &c.location);
    proof {
        assert(out@ =~= old(out)@ + spec_enc_nginx(c@));
    }
}

/// Decode an nginx config.
pub fn dec_nginx(buf: &[u8], pos: usize) -> (r: Option<(NginxConfig, usize)>)
    ensures
        match r {
            Some((c, p)) => spec_dec_nginx(buf@, pos as int) == Some((c@, p as int)),
            None => spec_dec_nginx(buf@, pos as int) is None,
        },
{
    let (file_location, p1) = match dec_str(buf, pos) {
        Some(t) => t,
        None => {
            return None;
        },
    };
    let (listen, p2) = match dec_u64(buf, p1) {
        Some(t) => t,
        None => {
            return None;
        },
    };
    if listen > usize::MAX as u64 {
        return None;
    }
    let (server_name, p3) = match dec_str(buf, p2) {
        Some(t) => t,
        None => {
            return None;
        },
    };
    let (access_log, p4) = match dec_opt_str(buf, p3) {
        Some(t) => t,
        None => {
            return None;
        },
    };
    let (location, p5) = match dec_locs(buf, p4) {
        Some(t) => t,
        None => {
            return None;
        },
    };
    let c = NginxConfig {
        file_location,
        listen: listen as usize,
        server_name,
        access_log,
        location,
    };
    Some((c, p5))
}

/// Decoding an nginx config inverts encoding it.
#[verifier::rlimit(60)]
pub proof fn lemma_dec_enc_nginx(b: Seq<u8>, pos: int, v: NginxConfigView)
    requires
        0 <= pos,
        pos + spec_enc_nginx(v).len() <= b.len(),
        b.subrange(pos, pos + spec_enc_nginx(v).len()) == spec_enc_nginx(v),
        nginx_fits(v),
    ensures
        spec_dec_nginx(b, pos) == Some((v, pos + spec_enc_nginx(v).len())),
{
    let e0 = spec_enc_str(v.file_location);
    let e1 = spec_enc_u64(v.listen as u64);
    let e2 = spec_enc_str(v.server_name);
    let e3 = spec_enc_opt_str(v.access_log);
    let e4 = spec_enc_locs(v.location);
    let e = spec_enc_nginx(v);
    assert(e == e0 + e1 + e2 + e3 + e4);
    vstd::bytes::lemma_auto_spec_u64_to_from_le_bytes();
    let p0 = pos;
    let p1 = p0 + e0.len() as int;
    let p2 = p1 + e1.len() as int;
    let p3 = p2 + e2.len() as int;
    let p4 = p3 + e3.len() as int;
    let p5 = p4 + e4.len() as int;
    assert(b.subrange(p0, p1) =~= e.subrange(0, e0.len() as int));
    assert(e.subrange(0, e0.len() as int) =~= e0);
    lemma_dec_enc_str(b, p0, v.file_location);
    assert(b.subrange(p1, p2) =~= e.subrange(p1 - pos, p2 - pos));
    assert(e.subrange(p1 - pos, p2 - pos) =~= e1);
    lemma_dec_enc_u64(b, p1, v.listen as u64);
    assert(b.subrange(p2, p3) =~= e.subrange(p2 - pos, p3 - pos));
    assert(e.subrange(p2 - pos, p3 - pos) =~= e2);
    lemma_dec_enc_str(b, p2, v.server_name);
    assert(b.subrange(p3, p4) =~= e.subrange(p3 - pos, p4 - pos));
    assert(e.subrange(p3 - pos, p4 - pos) =~= e3);
    lemma_dec_enc_opt_str(b, p3, v.access_log);
    assert(b.subrange(p4, p5) =~= e.subrange(p4 - pos, p5 - pos));
    assert(e.subrange(p4 - pos, p5 - pos) =~= e4);
    lemma_dec_enc_locs(b, p4, v.location);
}

// ---------------------------------------------------------------------------
// the deployment-row codec
// ---------------------------------------------------------------------------

pub open spec fn row_fits(d: db::DeploymentView) -> bool {
    &&& i64::MIN <= d.id <= i64::MAX
    &&& str_fits(d.name)
    &&& str_fits(d.description)
    &&& i64::MIN <= d.created_at <= i64::MAX
}

/// One deployment row: id, name, description, creation time.
pub open spec fn spec_enc_row(d: db::DeploymentView) -> Seq<u8> {
    spec_enc_i64(d.id as i64) + spec_enc_str(d.name) + spec_enc_str(d.description) + spec_enc_i64(
        d.created_at as i64,
    )
}

pub open spec fn spec_dec_row(b: Seq<u8>, pos: int) -> Option<(db::DeploymentView, int)> {
    match spec_dec_i64(b, pos) {
        None => None,
        Some((id, p1)) => match spec_dec_str(b, p1) {
            None => None,
            Some((name, p2)) => match spec_dec_str(b, p2) {
                None => None,
                Some((description, p3)) => match spec_dec_i64(b, p3) {
                    None => None,
                    Some((created_at, p4)) => Some(
                        (
                            db::DeploymentView {
                                id: id as int,
                                name,
                                description,
                                created_at: created_at as int,
                            },
                            p4,
                        ),
                    ),
                },
            },
        },
    }
}

fn enc_row_into(out: &mut Vec<u8>, d: &db::Deployment)
    ensures
        final(out)@ == old(out)@ + spec_enc_row(d@),
{
    enc_i64_into(out, d.id);
    enc_str_into(out, d.name.as_str());
    enc_str_into(out, d.description.as_str());
    enc_i64_into(out, d.created_at);
    proof {
        assert(out@ =~= old(out)@ + spec_enc_row(d@));
    }
}

fn dec_row(buf: &[u8], pos: usize) -> (r: Option<(db::Deployment, usize)>)
    ensures
        match r {
            Some((d, p)) => spec_dec_row(buf@, pos as int) == Some((d@, p as int)),
            None => spec_dec_row(buf@, pos as int) is None,
        },
{
    let (id, p1) = match dec_i64(buf, pos) {
        Some(t) => t,
        None => {
            return None;
        },
    };
    let (name, p2) = match dec_str(buf, p1) {
        Some(t) => t,
        None => {
            return None;
        },
    };
    let (description, p3) = match dec_str(buf, p2) {
        Some(t) => t,
        None => {
            return None;
        },
    };
    let (created_at, p4) = match dec_i64(buf, p3) {
        Some(t) => t,
        None => {
            return None;
        },
    };
    Some((db::Deployment { id, name, description, created_at }, p4))
}

proof fn lemma_dec_enc_row(b: Seq<u8>, pos: int, d: db::DeploymentView)
    requires
        0 <= pos,
        pos + spec_enc_row(d).len() <= b.len(),
        b.subrange(pos, pos + spec_enc_row(d).len()) == spec_enc_row(d),
        row_fits(d),
    ensures
        spec_dec_row(b, pos) == Some((d, pos + spec_enc_row(d).len())),
{
    let e0 = spec_enc_i64(d.id as i64);
    let e1 = spec_enc_str(d.name);
    let e2 = spec_enc_str(d.description);
    let e3 = spec_enc_i64(d.created_at as i64);
    let e = spec_enc_row(d);
    assert(e == e0 + e1 + e2 + e3);
    vstd::bytes::lemma_auto_spec_u64_to_from_le_bytes();
    let p0 = pos;
    let p1 = p0 + e0.len() as int;
    let p2 = p1 + e1.len() as int;
    let p3 = p2 + e2.len() as int;
    let p4 = p3 + e3.len() as int;
    assert(b.subrange(p0, p1) =~= e.subrange(0, e0.len() as int));
    assert(e.subrange(0, e0.len() as int) =~= e0);
    lemma_dec_enc_i64(b, p0, d.id as i64);
    assert(b.subrange(p1, p2) =~= e.subrange(p1 - pos, p2 - pos));
    assert(e.subrange(p1 - pos, p2 - pos) =~= e1);
    lemma_dec_enc_str(b, p1, d.name);
    assert(b.subrange(p2, p3) =~= e.subrange(p2 - pos, p3 - pos));
    assert(e.subrange(p2 - pos, p3 - pos) =~= e2);
    lemma_dec_enc_str(b, p2, d.description);
    assert(b.subrange(p3, p4) =~= e.subrange(p3 - pos, p4 - pos));
    assert(e.subrange(p3 - pos, p4 - pos) =~= e3);
    lemma_dec_enc_i64(b, p3, d.created_at as i64);
}

pub open spec fn rows_fit(ds: Seq<db::DeploymentView>) -> bool {
    &&& ds.len() <= u64::MAX
    &&& forall|i: int| 0 <= i < ds.len() ==> row_fits(#[trigger] ds[i])
}

pub open spec fn spec_enc_row_items(ds: Seq<db::DeploymentView>) -> Seq<u8>
    decreases ds.len(),
{
    if ds.len() == 0 {
        Seq::empty()
    } else {
        spec_enc_row(ds[0]) + spec_enc_row_items(ds.drop_first())
    }
}

/// A row list: its count, then its rows.
pub open spec fn spec_enc_rows(ds: Seq<db::DeploymentView>) -> Seq<u8> {
    spec_enc_u64(ds.len() as u64) + spec_enc_row_items(ds)
}

pub open spec fn spec_dec_row_items(b: Seq<u8>, pos: int, n: nat) -> Option<
    (Seq<db::DeploymentView>, int),
>
    decreases n,
{
    if n == 0 {
        Some((Seq::empty(), pos))
    } else {
        match spec_dec_row(b, pos) {
            None => None,
            Some((d, p)) => match spec_dec_row_items(b, p, (n - 1) as nat) {
                None => None,
                Some((rest, q)) => Some((seq![d] + rest, q)),
            },
        }
    }
}

pub open spec fn spec_dec_rows(b: Seq<u8>, pos: int) -> Option<(Seq<db::DeploymentView>, int)> {
    match spec_dec_u64(b, pos) {
        None => None,
        Some((n, p)) => spec_dec_row_items(b, p, n as nat),
    }
}

proof fn lemma_enc_row_items_snoc(ds: Seq<db::DeploymentView>, x: db::DeploymentView)
    ensures
        spec_enc_row_items(ds.push(x)) == spec_enc_row_items(ds) + spec_enc_row(x),
    decreases ds.len(),
{
    let p = ds.push(x);
    if ds.len() == 0 {
        assert(p[0] == x);
        assert(p.drop_first() =~= Seq::<db::DeploymentView>::empty());
        assert(spec_enc_row_items(p.drop_first()) =~= Seq::<u8>::empty());
        assert(spec_enc_row_items(ds) =~= Seq::<u8>::empty());
        assert(spec_enc_row_items(p) =~= spec_enc_row_items(ds) + spec_enc_row(x));
    } else {
        assert(p[0] == ds[0]);
        assert(p.drop_first() =~= ds.drop_first().push(x));
        lemma_enc_row_items_snoc(ds.drop_first(), x);
        let a = spec_enc_row(ds[0]);
        let c = spec_enc_row_items(ds.drop_first());
        let d = spec_enc_row(x);
        assert(spec_enc_row_items(p) == a + (c + d));
        assert(spec_enc_row_items(ds) == a + c);
        assert(a + (c + d) =~= (a + c) + d);
    }
}

/// Append the encoding of a row vector to `out`.
pub fn enc_rows_into(out: &mut Vec<u8>, ds: &Vec<db::Deployment>)
    ensures
        final(out)@ == old(out)@ + spec_enc_rows(ds@.map_values(|d: db::Deployment| d@)),
{
    let ghost dv = ds@.map_values(|d: db::Deployment| d@);
    enc_u64_into(out, ds.len() as u64);
    let ghost mid = out@;
    let mut i: usize = 0;
    while i < ds.len()
        invariant
            i <= ds@.len(),
            dv == ds@.map_values(|d: db::Deployment| d@),
            out@ == mid + spec_enc_row_items(dv.subrange(0, i as int)),
        decreases ds@.len() - i,
    {
        enc_row_into(out, &ds[i]);
        i += 1;
        proof {
            assert(dv.subrange(0, i as int) =~= dv.subrange(0, i - 1).push(dv[i - 1]));
            lemma_enc_row_items_snoc(dv.subrange(0, i - 1), dv[i - 1]);
            assert(out@ =~= mid + spec_enc_row_items(dv.subrange(0, i as int)));
        }
    }
    proof {
        assert(dv.subrange(0, dv.len() as int) =~= dv);
        assert(out@ =~= old(out)@ + spec_enc_rows(dv));
    }
}

/// Decode a row list.
pub fn dec_rows(buf: &[u8], pos: usize) -> (r: Option<(Vec<db::Deployment>, usize)>)
    ensures
        match r {
            Some((ds, p)) => spec_dec_rows(buf@, pos as int) == Some(
                (ds@.map_values(|d: db::Deployment| d@), p as int),
            ),
            None => spec_dec_rows(buf@, pos as int) is None,
        },
{
    let (n, start) = match dec_u64(buf, pos) {
        Some(t) => t,
        None => {
            return None;
        },
    };
    let mut acc: Vec<db::Deployment> = Vec::new();
    let mut cur: usize = start;
    let mut k: u64 = 0;
    proof {
        assert(acc@.map_values(|d: db::Deployment| d@) =~= Seq::<db::DeploymentView>::empty());
    }
    while k < n
        invariant
            k <= n,
            cur <= buf@.len(),
            spec_dec_u64(buf@, pos as int) == Some((n, start as int)),
            ({
                let whole = spec_dec_rows(buf@, pos as int);
                let tail = spec_dec_row_items(buf@, cur as int, (n - k) as nat);
                whole == (match tail {
                    Some((rest, q)) => Some((acc@.map_values(|d: db::Deployment| d@) + rest, q)),
                    None => None::<(Seq<db::DeploymentView>, int)>,
                })
            }),
        decreases n - k,
    {
        let (d, p) = match dec_row(buf, cur) {
            Some(t) => t,
            None => {
                return None;
            },
        };
        proof {
            let ghost tail2 = spec_dec_row_items(buf@, p as int, (n - k - 1) as nat);
            match tail2 {
                Some((rest, r)) => {
                    assert(acc@.push(d).map_values(|x: db::Deployment| x@) =~= acc@.map_values(
                        |x: db::Deployment| x@,
                    ).push(d@));
                    assert(acc@.map_values(|x: db::Deployment| x@) + (seq![d@] + rest)
                        =~= acc@.map_values(|x: db::Deployment| x@).push(d@) + rest);
                },
                None => {},
            }
        }
        acc.push(d);
        cur = p;
        k += 1;
    }
    proof {
        assert(acc@.map_values(|d: db::Deployment| d@) + Seq::<db::DeploymentView>::empty()
            =~= acc@.map_values(|d: db::Deployment| d@));
    }
    Some((acc, cur))
}

proof fn lemma_dec_enc_row_items(b: Seq<u8>, pos: int, ds: Seq<db::DeploymentView>)
    requires
        0 <= pos,
        pos + spec_enc_row_items(ds).len() <= b.len(),
        b.subrange(pos, pos + spec_enc_row_items(ds).len()) == spec_enc_row_items(ds),
        forall|i: int| 0 <= i < ds.len() ==> row_fits(#[trigger] ds[i]),
    ensures
        spec_dec_row_items(b, pos, ds.len() as nat) == Some(
            (ds, pos + spec_enc_row_items(ds).len()),
        ),
    decreases ds.len(),
{
    if ds.len() == 0 {
        assert(ds =~= Seq::<db::DeploymentView>::empty());
    } else {
        let e = spec_enc_row_items(ds);
        let e0 = spec_enc_row(ds[0]);
        let erest = spec_enc_row_items(ds.drop_first());
        assert(e == e0 + erest);
        assert(b.subrange(pos, pos + e0.len() as int) =~= e.subrange(0, e0.len() as int));
        assert(e.subrange(0, e0.len() as int) =~= e0);
        lemma_dec_enc_row(b, pos, ds[0]);
        let p = pos + e0.len() as int;
        assert(b.subrange(p, p + erest.len() as int) =~= e.subrange(
            e0.len() as int,
            e.len() as int,
        ));
        assert(e.subrange(e0.len() as int, e.len() as int) =~= erest);
        assert forall|i: int|
            0 <= i < ds.drop_first().len() implies row_fits(#[trigger] ds.drop_first()[i]) by {
            assert(ds.drop_first()[i] == ds[i + 1]);
        }
        lemma_dec_enc_row_items(b, p, ds.drop_first());
        assert(seq![ds[0]] + ds.drop_first() =~= ds);
    }
}

/// Decoding a row list inverts encoding it.
pub proof fn lemma_dec_enc_rows(b: Seq<u8>, pos: int, ds: Seq<db::DeploymentView>)
    requires
        0 <= pos,
        pos + spec_enc_rows(ds).len() <= b.len(),
        b.subrange(pos, pos + spec_enc_rows(ds).len()) == spec_enc_rows(ds),
        rows_fit(ds),
    ensures
        spec_dec_rows(b, pos) == Some((ds, pos + spec_enc_rows(ds).len())),
{
    let e = spec_enc_rows(ds);
    vstd::bytes::lemma_auto_spec_u64_to_from_le_bytes();
    assert(b.subrange(pos, pos + 8) =~= e.subrange(0, 8));
    assert(e.subrange(0, 8) =~= spec_enc_u64(ds.len() as u64));
    lemma_dec_enc_u64(b, pos, ds.len() as u64);
    assert(b.subrange(pos + 8, pos + e.len() as int) =~= e.subrange(8, e.len() as int));
    assert(e.subrange(8, e.len() as int) =~= spec_enc_row_items(ds));
    lemma_dec_enc_row_items(b, pos + 8, ds);
}

// ---------------------------------------------------------------------------
// the full deployment codec
// ---------------------------------------------------------------------------

pub open spec fn deployment_fits(d: DeploymentView) -> bool {
    &&& str_fits(d.id)
    &&& str_fits(d.name)
    &&& str_fits(d.description)
    &&& sysd_fits(d.service_cfg)
    &&& nginx_fits(d.nginx_cfg)
}

/// A full deployment record: identity, naming, and both configs.
pub open spec fn spec_enc_deployment(d: DeploymentView) -> Seq<u8> {
    spec_enc_str(d.id) + spec_enc_str(d.name) + spec_enc_str(d.description) + spec_enc_sysd(
        d.service_cfg,
    ) + spec_enc_nginx(d.nginx_cfg)
}

pub open spec fn spec_dec_deployment(b: Seq<u8>, pos: int) -> Option<(DeploymentView, int)> {
    match spec_dec_str(b, pos) {
        None => None,
        Some((id, p1)) => match spec_dec_str(b, p1) {
            None => None,
            Some((name, p2)) => match spec_dec_str(b, p2) {
                None => None,
                Some((description, p3)) => match spec_dec_sysd(b, p3) {
                    None => None,
                    Some((service_cfg, p4)) => match spec_dec_nginx(b, p4) {
                        None => None,
                        Some((nginx_cfg, p5)) => Some(
                            (
                                DeploymentView { id, name, description, service_cfg, nginx_cfg },
                                p5,
                            ),
                        ),
                    },
                },
            },
        },
    }
}

/// Append the encoding of a full deployment to `out`.
pub fn enc_deployment_into(out: &mut Vec<u8>, d: &Deployment)
    ensures
        final(out)@ == old(out)@ + spec_enc_deployment(d@),
{
    enc_str_into(out, d.id.as_str());
    enc_str_into(out, d.name.as_str());
    enc_str_into(out, d.description.as_str());
    enc_sysd_into(out, &d.service_cfg);
    enc_nginx_into(out, &d.nginx_cfg);
    proof {
        assert(out@ =~= old(out)@ + spec_enc_deployment(d@));
    }
}

/// Decode a full deployment.
pub fn dec_deployment(buf: &[u8], pos: usize) -> (r: Option<(Deployment, usize)>)
    ensures
        match r {
            Some((d, p)) => spec_dec_deployment(buf@, pos as int) == Some((d@, p as int)),
            None => spec_dec_deployment(buf@, pos as int) is None,
        },
{
    let (id, p1) = match dec_str(buf, pos) {
        Some(t) => t,
        None => {
            return None;
        },
    };
    let (name, p2) = match dec_str(buf, p1) {
        Some(t) => t,
        None => {
            return None;
        },
    };
    let (description, p3) = match dec_str(buf, p2) {
        Some(t) => t,
        None => {
            return None;
        },
    };
    let (service_cfg, p4) = match dec_sysd(buf, p3) {
        Some(t) => t,
        None => {
            return None;
        },
    };
    let (nginx_cfg, p5) = match dec_nginx(buf, p4) {
        Some(t) => t,
        None => {
            return None;
        },
    };
    Some((Deployment { id, name, description, service_cfg, nginx_cfg }, p5))
}

/// Five encoded values standing side by side in a buffer can each be read
/// back from their own segment.
proof fn lemma_concat5(b: Seq<u8>, pos: int, e0: Seq<u8>, e1: Seq<u8>, e2: Seq<u8>, e3: Seq<u8>, e4: Seq<u8>)
    requires
        0 <= pos,
        pos + (e0 + e1 + e2 + e3 + e4).len() <= b.len(),
        b.subrange(pos, pos + (e0 + e1 + e2 + e3 + e4).len()) == e0 + e1 + e2 + e3 + e4,
    ensures
        b.subrange(pos, pos + e0.len() as int) == e0,
        b.subrange(pos + e0.len() as int, pos + e0.len() + e1.len()) == e1,
        b.subrange(pos + e0.len() + e1.len(), pos + e0.len() + e1.len() + e2.len()) == e2,
        b.subrange(
            pos + e0.len() + e1.len() + e2.len(),
            pos + e0.len() + e1.len() + e2.len() + e3.len(),
        ) == e3,
        b.subrange(
            pos + e0.len() + e1.len() + e2.len() + e3.len(),
            pos + e0.len() + e1.len() + e2.len() + e3.len() + e4.len(),
        ) == e4,
{
    let e = e0 + e1 + e2 + e3 + e4;
    assert forall|j: int| 0 <= j < e.len() implies b[pos + j] == e[j] by {
        assert(b.subrange(pos, pos + e.len() as int)[j] == b[pos + j]);
    }
    let p1 = pos + e0.len() as int;
    let p2 = p1 + e1.len() as int;
    let p3 = p2 + e2.len() as int;
    let p4 = p3 + e3.len() as int;
    assert forall|m: int| 0 <= m < e0.len() implies b.subrange(pos, p1)[m] == e0[m] by {
        assert(b[pos + m] == e[m]);
        assert(e[m] == e0[m]);
    }
    assert(b.subrange(pos, p1) =~= e0);
    assert forall|m: int| 0 <= m < e1.len() implies b.subrange(p1, p2)[m] == e1[m] by {
        let j = e0.len() + m;
        assert(b[pos + j] == e[j]);
        assert(e[j] == e1[m]);
    }
    assert(b.subrange(p1, p2) =~= e1);
    assert forall|m: int| 0 <= m < e2.len() implies b.subrange(p2, p3)[m] == e2[m] by {
        let j = e0.len() + e1.len() + m;
        assert(b[pos + j] == e[j]);
        assert(e[j] == e2[m]);
    }
    assert(b.subrange(p2, p3) =~= e2);
    assert forall|m: int| 0 <= m < e3.len() implies b.subrange(p3, p4)[m] == e3[m] by {
        let j = e0.len() + e1.len() + e2.len() + m;
        assert(b[pos + j] == e[j]);
        assert(e[j] == e3[m]);
    }
    assert(b.subrange(p3, p4) =~= e3);
    assert forall|m: int|
        0 <= m < e4.len() implies b.subrange(p4, p4 + e4.len() as int)[m] == e4[m] by {
        let j = e0.len() + e1.len() + e2.len() + e3.len() + m;
        assert(b[pos + j] == e[j]);
        assert(e[j] == e4[m]);
    }
    assert(b.subrange(p4, p4 + e4.len() as int) =~= e4);
}

/// Decoding a full deployment inverts encoding it.
#[verifier::rlimit(60)]
pub proof fn lemma_dec_enc_deployment(b: Seq<u8>, pos: int, d: DeploymentView)
    requires
        0 <= pos,
        pos + spec_enc_deployment(d).len() <= b.len(),
        b.subrange(pos, pos + spec_enc_deployment(d).len()) == spec_enc_deployment(d),
        deployment_fits(d),
    ensures
        spec_dec_deployment(b, pos) == Some((d, pos + spec_enc_deployment(d).len())),
{
    let e0 = spec_enc_str(d.id);
    let e1 = spec_enc_str(d.name);
    let e2 = spec_enc_str(d.description);
    let e3 = spec_enc_sysd(d.service_cfg);
    let e4 = spec_enc_nginx(d.nginx_cfg);
    lemma_concat5(b, pos, e0, e1, e2, e3, e4);
    let p1 = pos + e0.len() as int;
    let p2 = p1 + e1.len() as int;
    let p3 = p2 + e2.len() as int;
    let p4 = p3 + e3.len() as int;
    lemma_dec_enc_str(b, pos, d.id);
    lemma_dec_enc_str(b, p1, d.name);
    lemma_dec_enc_str(b, p2, d.description);
    lemma_dec_enc_sysd(b, p3, d.service_cfg);
    lemma_dec_enc_nginx(b, p4, d.nginx_cfg);
}

// ---------------------------------------------------------------------------
// the error codec
// ---------------------------------------------------------------------------

/// A decode failure on the wire: a kind byte, with the offending byte where
/// there is one.
pub open spec fn spec_enc_decode_err(e: DecodeError) -> Seq<u8> {
    match e {
        DecodeError::Truncated => seq![0u8],
        DecodeError::BadTag(b) => seq![1u8, b],
        DecodeError::BadUtf8 => seq![2u8],
        DecodeError::TrailingBytes => seq![3u8],
        DecodeError::BadStatus(b) => seq![4u8, b],
    }
}

pub open spec fn spec_dec_decode_err(b: Seq<u8>, pos: int) -> Option<(DecodeError, int)> {
    match spec_dec_u8(b, pos) {
        None => None,
        Some((k, p)) => {
            if k == 0 {
                Some((DecodeError::Truncated, p))
            } else if k == 1 {
                match spec_dec_u8(b, p) {
                    None => None,
                    Some((t, q)) => Some((DecodeError::BadTag(t), q)),
                }
            } else if k == 2 {
                Some((DecodeError::BadUtf8, p))
            } else if k == 3 {
                Some((DecodeError::TrailingBytes, p))
            } else if k == 4 {
                match spec_dec_u8(b, p) {
                    None => None,
                    Some((t, q)) => Some((DecodeError::BadStatus(t), q)),
                }
            } else {
                None
            }
        },
    }
}

fn enc_decode_err_into(out: &mut Vec<u8>, e: &DecodeError)
    ensures
        final(out)@ == old(out)@ + spec_enc_decode_err(*e),
{
    match e {
        DecodeError::Truncated => {
            out.push(0u8);
        },
        DecodeError::BadTag(b) => {
            out.push(1u8);
            out.push(*b);
        },
        DecodeError::BadUtf8 => {
            out.push(2u8);
        },
        DecodeError::TrailingBytes => {
            out.push(3u8);
        },
        DecodeError::BadStatus(b) => {
            out.push(4u8);
            out.push(*b);
        },
    }
    proof {
        assert(out@ =~= old(out)@ + spec_enc_decode_err(*e));
    }
}

fn dec_decode_err(buf: &[u8], pos: usize) -> (r: Option<(DecodeError, usize)>)
    ensures
        match r {
            Some((e, p)) => spec_dec_decode_err(buf@, pos as int) == Some((e, p as int)),
            None => spec_dec_decode_err(buf@, pos as int) is None,
        },
{
    let (k, p) = match dec_u8(buf, pos) {
        Some(t) => t,
        None => {
            return None;
        },
    };
    if k == 0 {
        Some((DecodeError::Truncated, p))
    } else if k == 1 {
        match dec_u8(buf, p) {
            None => None,
            Some((t, q)) => Some((DecodeError::BadTag(t), q)),
        }
    } else if k == 2 {
        Some((DecodeError::BadUtf8, p))
    } else if k == 3 {
        Some((DecodeError::TrailingBytes, p))
    } else if k == 4 {
        match dec_u8(buf, p) {
            None => None,
            Some((t, q)) => Some((DecodeError::BadStatus(t), q)),
        }
    } else {
        None
    }
}

proof fn lemma_dec_enc_decode_err(b: Seq<u8>, pos: int, e: DecodeError)
    requires
        0 <= pos,
        pos + spec_enc_decode_err(e).len() <= b.len(),
        b.subrange(pos, pos + spec_enc_decode_err(e).len()) == spec_enc_decode_err(e),
    ensures
        spec_dec_decode_err(b, pos) == Some((e, pos + spec_enc_decode_err(e).len())),
{
    let s = spec_enc_decode_err(e);
    assert(b[pos] == b.subrange(pos, pos + s.len() as int)[0]);
    if s.len() == 2 {
        assert(b[pos + 1] == b.subrange(pos, pos + s.len() as int)[1]);
    }
}

/// A transport failure: a kind byte, then its message or nested failure.
pub open spec fn spec_enc_ioerr(e: PiteriaIOErrorView) -> Seq<u8> {
    match e {
        PiteriaIOErrorView::SocketClosed(s) => seq![0u8] + spec_enc_str(s),
        PiteriaIOErrorView::ChannelClosed(s) => seq![1u8] + spec_enc_str(s),
        PiteriaIOErrorView::Response(s) => seq![2u8] + spec_enc_str(s),
        PiteriaIOErrorView::Decode(d) => seq![3u8] + spec_enc_decode_err(d),
        PiteriaIOErrorView::MalformedHeader => seq![4u8],
        PiteriaIOErrorView::Io(s) => seq![5u8] + spec_enc_str(s),
    }
}

pub open spec fn spec_dec_ioerr(b: Seq<u8>, pos: int) -> Option<(PiteriaIOErrorView, int)> {
    match spec_dec_u8(b, pos) {
        None => None,
        Some((k, p)) => {
            if k == 0 {
                match spec_dec_str(b, p) {
                    None => None,
                    Some((s, q)) => Some((PiteriaIOErrorView::SocketClosed(s), q)),
                }
            } else if k == 1 {
                match spec_dec_str(b, p) {
                    None => None,
                    Some((s, q)) => Some((PiteriaIOErrorView::ChannelClosed(s), q)),
                }
            } else if k == 2 {
                match spec_dec_str(b, p) {
                    None => None,
                    Some((s, q)) => Some((PiteriaIOErrorView::Response(s), q)),
                }
            } else if k == 3 {
                match spec_dec_decode_err(b, p) {
                    None => None,
                    Some((d, q)) => Some((PiteriaIOErrorView::Decode(d), q)),
                }
            } else if k == 4 {
                Some((PiteriaIOErrorView::MalformedHeader, p))
            } else if k == 5 {
                match spec_dec_str(b, p) {
                    None => None,
                    Some((s, q)) => Some((PiteriaIOErrorView::Io(s), q)),
                }
            } else {
                None
            }
        },
    }
}

pub open spec fn ioerr_fits(e: PiteriaIOErrorView) -> bool {
    match e {
        PiteriaIOErrorView::SocketClosed(s) => str_fits(s),
        PiteriaIOErrorView::ChannelClosed(s) => str_fits(s),
        PiteriaIOErrorView::Response(s) => str_fits(s),
        PiteriaIOErrorView::Decode(_) => true,
        PiteriaIOErrorView::MalformedHeader => true,
        PiteriaIOErrorView::Io(s) => str_fits(s),
    }
}

fn enc_ioerr_into(out: &mut Vec<u8>, e: &PiteriaIOError)
    ensures
        final(out)@ == old(out)@ + spec_enc_ioerr(e@),
{
    match e {
        PiteriaIOError::SocketClosed(s) => {
            out.push(0u8);
            enc_str_into(out, s.as_str());
        },
        PiteriaIOError::ChannelClosed(s) => {
            out.push(1u8);
            enc_str_into(out, s.as_str());
        },
        PiteriaIOError::Response(s) => {
            out.push(2u8);
            enc_str_into(out, s.as_str());
        },
        PiteriaIOError::Decode(d) => {
            out.push(3u8);
            enc_decode_err_into(out, d);
        },
        PiteriaIOError::MalformedHeader => {
            out.push(4u8);
        },
        PiteriaIOError::Io(s) => {
            out.push(5u8);
            enc_str_into(out, s.as_str());
        },
    }
    proof {
        assert(out@ =~= old(out)@ + spec_enc_ioerr(e@));
    }
}

fn dec_ioerr(buf: &[u8], pos: usize) -> (r: Option<(PiteriaIOError, usize)>)
    ensures
        match r {
            Some((e, p)) => spec_dec_ioerr(buf@, pos as int) == Some((e@, p as int)),
            None => spec_dec_ioerr(buf@, pos as int) is None,
        },
{
    let (k, p) = match dec_u8(buf, pos) {
        Some(t) => t,
        None => {
            return None;
        },
    };
    if k == 0 {
        match dec_str(buf, p) {
            None => None,
            Some((s, q)) => Some((PiteriaIOError::SocketClosed(s), q)),
        }
    } else if k == 1 {
        match dec_str(buf, p) {
            None => None,
            Some((s, q)) => Some((PiteriaIOError::ChannelClosed(s), q)),
        }
    } else if k == 2 {
        match dec_str(buf, p) {
            None => None,
            Some((s, q)) => Some((PiteriaIOError::Response(s), q)),
        }
    } else if k == 3 {
        match dec_decode_err(buf, p) {
            None => None,
            Some((d, q)) => Some((PiteriaIOError::Decode(d), q)),
        }
    } else if k == 4 {
        Some((PiteriaIOError::MalformedHeader, p))
    } else if k == 5 {
        match dec_str(buf, p) {
            None => None,
            Some((s, q)) => Some((PiteriaIOError::Io(s), q)),
        }
    } else {
        None
    }
}

proof fn lemma_dec_enc_ioerr(b: Seq<u8>, pos: int, e: PiteriaIOErrorView)
    requires
        0 <= pos,
        pos + spec_enc_ioerr(e).len() <= b.len(),
        b.subrange(pos, pos + spec_enc_ioerr(e).len()) == spec_enc_ioerr(e),
        ioerr_fits(e),
    ensures
        spec_dec_ioerr(b, pos) == Some((e, pos + spec_enc_ioerr(e).len())),
{
    let s = spec_enc_ioerr(e);
    assert(b[pos] == b.subrange(pos, pos + s.len() as int)[0]);
    match e {
        PiteriaIOErrorView::SocketClosed(t) => {
            assert(b.subrange(pos + 1, pos + s.len() as int) =~= s.subrange(1, s.len() as int));
            assert(s.subrange(1, s.len() as int) =~= spec_enc_str(t));
            lemma_dec_enc_str(b, pos + 1, t);
        },
        PiteriaIOErrorView::ChannelClosed(t) => {
            assert(b.subrange(pos + 1, pos + s.len() as int) =~= s.subrange(1, s.len() as int));
            assert(s.subrange(1, s.len() as int) =~= spec_enc_str(t));
            lemma_dec_enc_str(b, pos + 1, t);
        },
        PiteriaIOErrorView::Response(t) => {
            assert(b.subrange(pos + 1, pos + s.len() as int) =~= s.subrange(1, s.len() as int));
            assert(s.subrange(1, s.len() as int) =~= spec_enc_str(t));
            lemma_dec_enc_str(b, pos + 1, t);
        },
        PiteriaIOErrorView::Decode(d) => {
            assert(b.subrange(pos + 1, pos + s.len() as int) =~= s.subrange(1, s.len() as int));
            assert(s.subrange(1, s.len() as int) =~= spec_enc_decode_err(d));
            lemma_dec_enc_decode_err(b, pos + 1, d);
        },
        PiteriaIOErrorView::MalformedHeader => {},
        PiteriaIOErrorView::Io(t) => {
            assert(b.subrange(pos + 1, pos + s.len() as int) =~= s.subrange(1, s.len() as int));
            assert(s.subrange(1, s.len() as int) =~= spec_enc_str(t));
            lemma_dec_enc_str(b, pos + 1, t);
        },
    }
}

/// A domain failure: a kind byte, then its payload.
pub open spec fn spec_enc_perr(e: PiteriaErrorView) -> Seq<u8> {
    match e {
        PiteriaErrorView::IO(s) => seq![0u8] + spec_enc_str(s),
        PiteriaErrorView::NginxParse(s) => seq![1u8] + spec_enc_str(s),
        PiteriaErrorView::PiteriaIO(ioe) => seq![2u8] + spec_enc_ioerr(ioe),
        PiteriaErrorView::NotFound(id) => seq![3u8] + spec_enc_i64(id as i64),
    }
}

pub open spec fn spec_dec_perr(b: Seq<u8>, pos: int) -> Option<(PiteriaErrorView, int)> {
    match spec_dec_u8(b, pos) {
        None => None,
        Some((k, p)) => {
            if k == 0 {
                match spec_dec_str(b, p) {
                    None => None,
                    Some((s, q)) => Some((PiteriaErrorView::IO(s), q)),
                }
            } else if k == 1 {
                match spec_dec_str(b, p) {
                    None => None,
                    Some((s, q)) => Some((PiteriaErrorView::NginxParse(s), q)),
                }
            } else if k == 2 {
                match spec_dec_ioerr(b, p) {
                    None => None,
                    Some((ioe, q)) => Some((PiteriaErrorView::PiteriaIO(ioe), q)),
                }
            } else if k == 3 {
                match spec_dec_i64(b, p) {
                    None => None,
                    Some((id, q)) => Some((PiteriaErrorView::NotFound(id as int), q)),
                }
            } else {
                None
            }
        },
    }
}

pub open spec fn perr_fits(e: PiteriaErrorView) -> bool {
    match e {
        PiteriaErrorView::IO(s) => str_fits(s),
        PiteriaErrorView::NginxParse(s) => str_fits(s),
        PiteriaErrorView::PiteriaIO(ioe) => ioerr_fits(ioe),
        PiteriaErrorView::NotFound(id) => i64::MIN <= id <= i64::MAX,
    }
}

fn enc_perr_into(out: &mut Vec<u8>, e: &PiteriaError)
    ensures
        final(out)@ == old(out)@ + spec_enc_perr(e@),
{
    match e {
        PiteriaError::IO(s) => {
            out.push(0u8);
            enc_str_into(out, s.as_str());
        },
        PiteriaError::NginxParse(s) => {
            out.push(1u8);
            enc_str_into(out, s.as_str());
        },
        PiteriaError::PiteriaIO(ioe) => {
            out.push(2u8);
            enc_ioerr_into(out, ioe);
        },
        PiteriaError::NotFound(id) => {
            out.push(3u8);
            enc_i64_into(out, *id);
        },
    }
    proof {
        assert(out@ =~= old(out)@ + spec_enc_perr(e@));
    }
}

fn dec_perr(buf: &[u8], pos: usize) -> (r: Option<(PiteriaError, usize)>)
    ensures
        match r {
            Some((e, p)) => spec_dec_perr(buf@, pos as int) == Some((e@, p as int)),
            None => spec_dec_perr(buf@, pos as int) is None,
        },
{
    let (k, p) = match dec_u8(buf, pos) {
        Some(t) => t,
        None => {
            return None;
        },
    };
    if k == 0 {
        match dec_str(buf, p) {
            None => None,
            Some((s, q)) => Some((PiteriaError::IO(s), q)),
        }
    } else if k == 1 {
        match dec_str(buf, p) {
            None => None,
            Some((s, q)) => Some((PiteriaError::NginxParse(s), q)),
        }
    } else if k == 2 {
        match dec_ioerr(buf, p) {
            None => None,
            Some((ioe, q)) => Some((PiteriaError::PiteriaIO(ioe), q)),
        }
    } else if k == 3 {
        match dec_i64(buf, p) {
            None => None,
            Some((id, q)) => Some((PiteriaError::NotFound(id), q)),
        }
    } else {
        None
    }
}

proof fn lemma_dec_enc_perr(b: Seq<u8>, pos: int, e: PiteriaErrorView)
    requires
        0 <= pos,
        pos + spec_enc_perr(e).len() <= b.len(),
        b.subrange(pos, pos + spec_enc_perr(e).len()) == spec_enc_perr(e),
        perr_fits(e),
    ensures
        spec_dec_perr(b, pos) == Some((e, pos + spec_enc_perr(e).len())),
{
    let s = spec_enc_perr(e);
    assert(b[pos] == b.subrange(pos, pos + s.len() as int)[0]);
    match e {
        PiteriaErrorView::IO(t) => {
            assert(b.subrange(pos + 1, pos + s.len() as int) =~= s.subrange(1, s.len() as int));
            assert(s.subrange(1, s.len() as int) =~= spec_enc_str(t));
            lemma_dec_enc_str(b, pos + 1, t);
        },
        PiteriaErrorView::NginxParse(t) => {
            assert(b.subrange(pos + 1, pos + s.len() as int) =~= s.subrange(1, s.len() as int));
            assert(s.subrange(1, s.len() as int) =~= spec_enc_str(t));
            lemma_dec_enc_str(b, pos + 1, t);
        },
        PiteriaErrorView::PiteriaIO(ioe) => {
            assert(b.subrange(pos + 1, pos + s.len() as int) =~= s.subrange(1, s.len() as int));
            assert(s.subrange(1, s.len() as int) =~= spec_enc_ioerr(ioe));
            lemma_dec_enc_ioerr(b, pos + 1, ioe);
        },
        PiteriaErrorView::NotFound(id) => {
            vstd::bytes::lemma_auto_spec_u64_to_from_le_bytes();
            assert(b.subrange(pos + 1, pos + s.len() as int) =~= s.subrange(1, s.len() as int));
            assert(s.subrange(1, s.len() as int) =~= spec_enc_i64(id as i64));
            lemma_dec_enc_i64(b, pos + 1, id as i64);
        },
    }
}

// ---------------------------------------------------------------------------
// the response catalog and its wire form
// ---------------------------------------------------------------------------

/// The closed set of responses, one shape per request variant.
#[derive(Debug)]
pub enum PiteriaResponse {
    /// Acknowledgement of the liveness check.
    Hello,
    /// All deployment rows.
    Overview(Vec<db::Deployment>),
    /// One deployment's full record.
    ViewDeployment(Deployment),
}

/// The mathematical content of a response.
#[verifier::ext_equal]
pub ghost enum PiteriaResponseView {
    Hello,
    Overview(Seq<db::DeploymentView>),
    ViewDeployment(DeploymentView),
}

impl View for PiteriaResponse {
    type V = PiteriaResponseView;

    open spec fn view(&self) -> PiteriaResponseView {
        match self {
            PiteriaResponse::Hello => PiteriaResponseView::Hello,
            PiteriaResponse::Overview(ds) => PiteriaResponseView::Overview(
                ds@.map_values(|d: db::Deployment| d@),
            ),
            PiteriaResponse::ViewDeployment(d) => PiteriaResponseView::ViewDeployment(d@),
        }
    }
}

/// Whether a response has the shape the request's tag declares.
pub open spec fn spec_response_matches(tag: PiteriaTag, r: PiteriaResponseView) -> bool {
    match (tag, r) {
        (PiteriaTag::Hello, PiteriaResponseView::Hello) => true,
        (PiteriaTag::Overview, PiteriaResponseView::Overview(_)) => true,
        (PiteriaTag::ViewDeployment, PiteriaResponseView::ViewDeployment(_)) => true,
        _ => false,
    }
}

pub open spec fn response_fits(r: PiteriaResponseView) -> bool {
    match r {
        PiteriaResponseView::Hello => true,
        PiteriaResponseView::Overview(ds) => rows_fit(ds),
        PiteriaResponseView::ViewDeployment(d) => deployment_fits(d),
    }
}

/// The body of a successful response, without the status byte.
pub open spec fn spec_enc_response_body(r: PiteriaResponseView) -> Seq<u8> {
    match r {
        PiteriaResponseView::Hello => Seq::empty(),
        PiteriaResponseView::Overview(ds) => spec_enc_rows(ds),
        PiteriaResponseView::ViewDeployment(d) => spec_enc_deployment(d),
    }
}

/// A whole wire response: a success byte and the response body, or a
/// failure byte and the domain error.
pub open spec fn spec_enc_response(r: Result<PiteriaResponseView, PiteriaErrorView>) -> Seq<u8> {
    match r {
        Ok(resp) => seq![0u8] + spec_enc_response_body(resp),
        Err(e) => seq![1u8] + spec_enc_perr(e),
    }
}

/// Decode a wire response, knowing which request it answers. Exactly the
/// whole payload must be consumed: the framing already delimits it.
pub open spec fn spec_dec_response(tag: PiteriaTag, b: Seq<u8>) -> Result<
    Result<PiteriaResponseView, PiteriaErrorView>,
    DecodeError,
> {
    if b.len() == 0 {
        Err(DecodeError::Truncated)
    } else if b[0] == 0 {
        match tag {
            PiteriaTag::Hello => {
                if b.len() == 1 {
                    Ok(Ok(PiteriaResponseView::Hello))
                } else {
                    Err(DecodeError::TrailingBytes)
                }
            },
            PiteriaTag::Overview => match spec_dec_rows(b, 1) {
                None => Err(DecodeError::Truncated),
                Some((ds, p)) => {
                    if p == b.len() {
                        Ok(Ok(PiteriaResponseView::Overview(ds)))
                    } else {
                        Err(DecodeError::TrailingBytes)
                    }
                },
            },
            PiteriaTag::ViewDeployment => match spec_dec_deployment(b, 1) {
                None => Err(DecodeError::Truncated),
                Some((d, p)) => {
                    if p == b.len() {
                        Ok(Ok(PiteriaResponseView::ViewDeployment(d)))
                    } else {
                        Err(DecodeError::TrailingBytes)
                    }
                },
            },
        }
    } else if b[0] == 1 {
        match spec_dec_perr(b, 1) {
            None => Err(DecodeError::Truncated),
            Some((e, p)) => {
                if p == b.len() {
                    Ok(Err(e))
                } else {
                    Err(DecodeError::TrailingBytes)
                }
            },
        }
    } else {
        Err(DecodeError::BadStatus(b[0]))
    }
}

/// Encode a dispatch outcome for the wire.
pub fn encode_response(r: &Result<PiteriaResponse, PiteriaError>) -> (out: Vec<u8>)
    ensures
        out@ == spec_enc_response(
            match r {
                Ok(resp) => Ok(resp@),
                Err(e) => Err(e@),
            },
        ),
{
    let mut out: Vec<u8> = Vec::new();
    match r {
        Ok(resp) => {
            out.push(0u8);
            match resp {
                PiteriaResponse::Hello => {},
                PiteriaResponse::Overview(ds) => {
                    enc_rows_into(&mut out, ds);
                },
                PiteriaResponse::ViewDeployment(d) => {
                    enc_deployment_into(&mut out, d);
                },
            }
        },
        Err(e) => {
            out.push(1u8);
            enc_perr_into(&mut out, e);
        },
    }
    proof {
        assert(out@ =~= spec_enc_response(
            match r {
                Ok(resp) => Ok(resp@),
                Err(e) => Err(e@),
            },
        ));
    }
    out
}

/// Decode a wire response, knowing which request it answers.
pub fn decode_response(tag: PiteriaTag, buf: &Vec<u8>) -> (r: Result<
    Result<PiteriaResponse, PiteriaError>,
    DecodeError,
>)
    ensures
        match r {
            Ok(Ok(resp)) => spec_dec_response(tag, buf@) == Ok::<
                Result<PiteriaResponseView, PiteriaErrorView>,
                DecodeError,
            >(Ok(resp@)),
            Ok(Err(e)) => spec_dec_response(tag, buf@) == Ok::<
                Result<PiteriaResponseView, PiteriaErrorView>,
                DecodeError,
            >(Err(e@)),
            Err(de) => spec_dec_response(tag, buf@) == Err::<
                Result<PiteriaResponseView, PiteriaErrorView>,
                DecodeError,
            >(de),
        },
{
    if buf.len() == 0 {
        return Err(DecodeError::Truncated);
    }
    let status = buf[0];
    if status == 0 {
        match tag {
            PiteriaTag::Hello => {
                if buf.len() == 1 {
                    Ok(Ok(PiteriaResponse::Hello))
                } else {
                    Err(DecodeError::TrailingBytes)
                }
            },
            PiteriaTag::Overview => match dec_rows(buf.as_slice(), 1) {
                None => Err(DecodeError::Truncated),
                Some((ds, p)) => {
                    if p == buf.len() {
                        Ok(Ok(PiteriaResponse::Overview(ds)))
                    } else {
                        Err(DecodeError::TrailingBytes)
                    }
                },
            },
            PiteriaTag::ViewDeployment => match dec_deployment(buf.as_slice(), 1) {
                None => Err(DecodeError::Truncated),
                Some((d, p)) => {
                    if p == buf.len() {
                        Ok(Ok(PiteriaResponse::ViewDeployment(d)))
                    } else {
                        Err(DecodeError::TrailingBytes)
                    }
                },
            },
        }
    } else if status == 1 {
        match dec_perr(buf.as_slice(), 1) {
            None => Err(DecodeError::Truncated),
            Some((e, p)) => {
                if p == buf.len() {
                    Ok(Err(e))
                } else {
                    Err(DecodeError::TrailingBytes)
                }
            },
        }
    } else {
        Err(DecodeError::BadStatus(status))
    }
}

/// Decoding a wire response inverts encoding it: a dispatch outcome whose
/// success matches the request's tag crosses the wire unchanged.
pub proof fn lemma_response_round_trip(
    tag: PiteriaTag,
    r: Result<PiteriaResponseView, PiteriaErrorView>,
)
    requires
        match r {
            Ok(resp) => spec_response_matches(tag, resp) && response_fits(resp),
            Err(e) => perr_fits(e),
        },
    ensures
        spec_dec_response(tag, spec_enc_response(r)) == Ok::<
            Result<PiteriaResponseView, PiteriaErrorView>,
            DecodeError,
        >(r),
{
    let b = spec_enc_response(r);
    assert(b[0] == (match r {
        Ok(_) => 0u8,
        Err(_) => 1u8,
    }));
    match r {
        Ok(resp) => {
            match resp {
                PiteriaResponseView::Hello => {},
                PiteriaResponseView::Overview(ds) => {
                    let e = spec_enc_rows(ds);
                    assert(b.subrange(1, b.len() as int) =~= e);
                    lemma_dec_enc_rows(b, 1, ds);
                },
                PiteriaResponseView::ViewDeployment(d) => {
                    let e = spec_enc_deployment(d);
                    assert(b.subrange(1, b.len() as int) =~= e);
                    lemma_dec_enc_deployment(b, 1, d);
                },
            }
        },
        Err(e) => {
            let ee = spec_enc_perr(e);
            assert(b.subrange(1, b.len() as int) =~= ee);
            lemma_dec_enc_perr(b, 1, e);
        },
    }
}

} // verus!
