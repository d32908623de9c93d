use vstd::prelude::*;

verus! {

/// The encoded weight bound: a floating-point approximation of each end
/// and the four exact integer components, each carried as the bytes of
/// its number token so that no precision is lost in transport.
pub struct WeightRangeEnc {
    pub lower: Vec<u8>,
    pub upper: Vec<u8>,
    pub ln: Vec<u8>,
    pub ld: Vec<u8>,
    pub un: Vec<u8>,
    pub ud: Vec<u8>,
}

/// The output envelope: the visualization document and the rendered page
/// are present exactly when they were requested; the subgraph is the
/// solver's edge list, in order.
pub struct Envelope {
    pub json_doc: Option<Vec<u8>>,
    pub html: Option<Vec<u8>>,
    pub subgraph: Vec<u64>,
    pub weight_range: WeightRangeEnc,
}

/// The decimal digits of `n`, most significant first.
pub open spec fn spec_u64_dec(n: nat) -> Seq<u8>
    decreases n,
{
    if n < 10 {
        seq![(48 + n) as u8]
    } else {
        spec_u64_dec(n / 10) + seq![(48 + n % 10) as u8]
    }
}

/// The lowercase hexadecimal digit byte for a value below sixteen.
pub open spec fn spec_hex_digit(d: u8) -> u8 {
    if d < 10 {
        (48 + d) as u8
    } else {
        (87 + d) as u8
    }
}

/// How one byte of a string is escaped inside a quoted literal: the quote
/// and the backslash get a backslash escape, a control byte becomes a
/// four-digit hexadecimal escape, and every other byte stands as itself.
pub open spec fn spec_esc_byte(b: u8) -> Seq<u8> {
    if b == 34 {
        seq![92u8, 34]
    } else if b == 92 {
        seq![92u8, 92]
    } else if b < 32 {
        seq![92u8, 117, 48, 48, spec_hex_digit(b / 16), spec_hex_digit(b % 16)]
    } else {
        seq![b]
    }
}

/// The lowercase hexadecimal digit byte, executably.
pub fn hex_digit(d: u8) -> (r: u8)
    requires
        d < 16,
    ensures
        r == spec_hex_digit(d),
{
    if d < 10 {
        48 + d
    } else {
        87 + d
    }
}

/// A quoted string body: each byte escaped in turn.
pub open spec fn spec_escape(s: Seq<u8>) -> Seq<u8>
    decreases s.len(),
{
    if s.len() == 0 {
        Seq::empty()
    } else {
        spec_escape(s.drop_last()) + spec_esc_byte(s.last())
    }
}

/// The edge identifiers joined by commas.
pub open spec fn spec_join_ids(s: Seq<u64>) -> Seq<u8>
    decreases s.len(),
{
    if s.len() == 0 {
        Seq::empty()
    } else if s.len() == 1 {
        spec_u64_dec(s[0] as nat)
    } else {
        spec_join_ids(s.drop_last()) + seq![44u8] + spec_u64_dec(s.last() as nat)
    }
}

/// The subgraph rendered as an array of edge identifiers.
pub open spec fn spec_ser_subgraph(s: Seq<u64>) -> Seq<u8> {
    seq![91u8] + spec_join_ids(s) + seq![93u8]
}

/// The bytes of the literal `"subgraph":`.
pub open spec fn key_subgraph() -> Seq<u8> {
    seq![34u8, 115, 117, 98, 103, 114, 97, 112, 104, 34, 58]
}

/// The bytes of the literal `"weight_range":`.
pub open spec fn key_weight_range() -> Seq<u8> {
    seq![34u8, 119, 101, 105, 103, 104, 116, 95, 114, 97, 110, 103, 101, 34, 58]
}

/// The bytes of the literal `"lower":`.
pub open spec fn key_lower() -> Seq<u8> {
    seq![34u8, 108, 111, 119, 101, 114, 34, 58]
}

/// The bytes of the literal `"upper":`.
pub open spec fn key_upper() -> Seq<u8> {
    seq![34u8, 117, 112, 112, 101, 114, 34, 58]
}

/// The bytes of the literal `"ln":`.
pub open spec fn key_ln() -> Seq<u8> {
    seq![34u8, 108, 110, 34, 58]
}

/// The bytes of the literal `"ld":`.
pub open spec fn key_ld() -> Seq<u8> {
    seq![34u8, 108, 100, 34, 58]
}

/// The bytes of the literal `"un":`.
pub open spec fn key_un() -> Seq<u8> {
    seq![34u8, 117, 110, 34, 58]
}

/// The bytes of the literal `"ud":`.
pub open spec fn key_ud() -> Seq<u8> {
    seq![34u8, 117, 100, 34, 58]
}

/// The bytes of the literal `"html":`.
pub open spec fn key_html() -> Seq<u8> {
    seq![34u8, 104, 116, 109, 108, 34, 58]
}

/// The bytes of the literal `"json":`.
pub open spec fn key_json() -> Seq<u8> {
    seq![34u8, 106, 115, 111, 110, 34, 58]
}

/// The weight bound rendered as an object of its six number tokens.
pub open spec fn spec_ser_weight_range(w: WeightRangeEnc) -> Seq<u8> {
    seq![123u8] + key_lower() + w.lower@ + seq![44u8] + key_upper() + w.upper@ + seq![44u8]
        + key_ln() + w.ln@ + seq![44u8] + key_ld() + w.ld@ + seq![44u8] + key_un() + w.un@
        + seq![44u8] + key_ud() + w.ud@ + seq![125u8]
}

/// The whole envelope rendered as an object. The mandatory members come
/// first; the page string and the visualization document follow only when
/// present, the document last so that its untyped body runs to the final
/// closing brace.
pub open spec fn spec_ser_envelope(e: Envelope) -> Seq<u8> {
    seq![123u8] + key_subgraph() + spec_ser_subgraph(e.subgraph@) + seq![44u8]
        + key_weight_range() + spec_ser_weight_range(e.weight_range) + (if e.html is Some {
        seq![44u8] + key_html() + seq![34u8] + spec_escape(e.html->0@) + seq![34u8]
    } else {
        Seq::empty()
    }) + (if e.json_doc is Some {
        seq![44u8] + key_json() + e.json_doc->0@
    } else {
        Seq::empty()
    }) + seq![125u8]
}

/// Append the decimal digits of `n`.
pub fn push_u64_dec(out: &mut Vec<u8>, n: u64)
    ensures
        final(out)@ == old(out)@ + spec_u64_dec(n as nat),
    decreases n,
{
    if n < 10 {
        out.push((48 + n) as u8);
        assert(out@ =~= old(out)@ + spec_u64_dec(n as nat));
    } else {
        push_u64_dec(out, n / 10);
        out.push((48 + n % 10) as u8);
        assert(out@ =~= old(out)@ + spec_u64_dec(n as nat));
    }
}

/// Append a raw token verbatim.
pub fn push_tok(out: &mut Vec<u8>, t: &Vec<u8>)
    ensures
        final(out)@ == old(out)@ + t@,
{
    let mut i: usize = 0;
    while i < t.len()
        invariant
            i <= t.len(),
            out@ == old(out)@ + t@.subrange(0, i as int),
        decreases t.len() - i,
    {
        out.push(t[i]);
        assert(out@ =~= old(out)@ + t@.subrange(0, i + 1 as int));
        i = i + 1;
    }
    assert(t@.subrange(0, t@.len() as int) =~= t@);
}

/// Append a quoted string body, escaping each byte.
pub fn push_escaped(out: &mut Vec<u8>, s: &Vec<u8>)
    ensures
        final(out)@ == old(out)@ + spec_escape(s@),
{
    let mut i: usize = 0;
    while i < s.len()
        invariant
            i <= s.len(),
            out@ == old(out)@ + spec_escape(s@.subrange(0, i as int)),
        decreases s.len() - i,
    {
        let b = s[i];
        if b == 34 {
            out.push(92);
            out.push(34);
        } else if b == 92 {
            out.push(92);
            out.push(92);
        } else if b < 32 {
            out.push(92);
            out.push(117);
            out.push(48);
            out.push(48);
            out.push(hex_digit(b / 16));
            out.push(hex_digit(b % 16));
        } else {
            out.push(b);
        }
        proof {
            let pre = s@.subrange(0, i + 1 as int);
            assert(pre.drop_last() =~= s@.subrange(0, i as int));
            assert(pre.last() == s@[i as int]);
            assert(out@ =~= old(out)@ + spec_escape(pre));
        }
        i = i + 1;
    }
    assert(s@.subrange(0, s@.len() as int) =~= s@);
}

/// Append the subgraph array.
pub fn push_subgraph(out: &mut Vec<u8>, s: &Vec<u64>)
    ensures
        final(out)@ == old(out)@ + spec_ser_subgraph(s@),
{
    out.push(91);
    let mut i: usize = 0;
    while i < s.len()
        invariant
            i <= s.len(),
            out@ == old(out)@ + seq![91u8] + spec_join_ids(s@.subrange(0, i as int)),
        decreases s.len() - i,
    {
        if i > 0 {
            out.push(44);
        }
        push_u64_dec(out, s[i]);
        proof {
            let pre = s@.subrange(0, i + 1 as int);
            assert(pre.drop_last() =~= s@.subrange(0, i as int));
            assert(pre.last() == s@[i as int]);
            assert(out@ =~= old(out)@ + seq![91u8] + spec_join_ids(pre));
        }
        i = i + 1;
    }
    out.push(93);
    proof {
        assert(s@.subrange(0, s@.len() as int) =~= s@);
        assert(out@ =~= old(out)@ + spec_ser_subgraph(s@));
    }
}

fn push_key_subgraph(out: &mut Vec<u8>)
    ensures
        final(out)@ == old(out)@ + key_subgraph(),
{
    out.push(34);
    out.push(115);
    out.push(117);
    out.push(98);
    out.push(103);
    out.push(114);
    out.push(97);
    out.push(112);
    out.push(104);
    out.push(34);
    out.push(58);
    assert(out@ =~= old(out)@ + key_subgraph());
}

fn push_key_weight_range(out: &mut Vec<u8>)
    ensures
        final(out)@ == old(out)@ + key_weight_range(),
{
    out.push(34);
    out.push(119);
    out.push(101);
    out.push(105);
    out.push(103);
    out.push(104);
    out.push(116);
    out.push(95);
    out.push(114);
    out.push(97);
    out.push(110);
    out.push(103);
    out.push(101);
    out.push(34);
    out.push(58);
    assert(out@ =~= old(out)@ + key_weight_range());
}

fn push_key_lower(out: &mut Vec<u8>)
    ensures
        final(out)@ == old(out)@ + key_lower(),
{
    out.push(34);
    out.push(108);
    out.push(111);
    out.push(119);
    out.push(101);
    out.push(114);
    out.push(34);
    out.push(58);
    assert(out@ =~= old(out)@ + key_lower());
}

fn push_key_upper(out: &mut Vec<u8>)
    ensures
        final(out)@ == old(out)@ + key_upper(),
{
    out.push(34);
    out.push(117);
    out.push(112);
    out.push(112);
    out.push(101);
    out.push(114);
    out.push(34);
    out.push(58);
    assert(out@ =~= old(out)@ + key_upper());
}

fn push_key_ln(out: &mut Vec<u8>)
    ensures
        final(out)@ == old(out)@ + key_ln(),
{
    out.push(34);
    out.push(108);
    out.push(110);
    out.push(34);
    out.push(58);
    assert(out@ =~= old(out)@ + key_ln());
}

fn push_key_ld(out: &mut Vec<u8>)
    ensures
        final(out)@ == old(out)@ + key_ld(),
{
    out.push(34);
    out.push(108);
    out.push(100);
    out.push(34);
    out.push(58);
    assert(out@ =~= old(out)@ + key_ld());
}

fn push_key_un(out: &mut Vec<u8>)
    ensures
        final(out)@ == old(out)@ + key_un(),
{
    out.push(34);
    out.push(117);
    out.push(110);
    out.push(34);
    out.push(58);
    assert(out@ =~= old(out)@ + key_un());
}

fn push_key_ud(out: &mut Vec<u8>)
    ensures
        final(out)@ == old(out)@ + key_ud(),
{
    out.push(34);
    out.push(117);
    out.push(100);
    out.push(34);
    out.push(58);
    assert(out@ =~= old(out)@ + key_ud());
}

fn push_key_html(out: &mut Vec<u8>)
    ensures
        final(out)@ == old(out)@ + key_html(),
{
    out.push(34);
    out.push(104);
    out.push(116);
    out.push(109);
    out.push(108);
    out.push(34);
    out.push(58);
    assert(out@ =~= old(out)@ + key_html());
}

fn push_key_json(out: &mut Vec<u8>)
    ensures
        final(out)@ == old(out)@ + key_json(),
{
    out.push(34);
    out.push(106);
    out.push(115);
    out.push(111);
    out.push(110);
    out.push(34);
    out.push(58);
    assert(out@ =~= old(out)@ + key_json());
}

/// Append the weight-bound object.
pub fn push_weight_range(out: &mut Vec<u8>, w: &WeightRangeEnc)
    ensures
        final(out)@ == old(out)@ + spec_ser_weight_range(*w),
{
    out.push(123);
    push_key_lower(out);
    push_tok(out, &w.lower);
    out.push(44);
    push_key_upper(out);
    push_tok(out, &w.upper);
    out.push(44);
    push_key_ln(out);
    push_tok(out, &w.ln);
    out.push(44);
    push_key_ld(out);
    push_tok(out, &w.ld);
    out.push(44);
    push_key_un(out);
    push_tok(out, &w.un);
    out.push(44);
    push_key_ud(out);
    push_tok(out, &w.ud);
    out.push(125);
    assert(out@ =~= old(out)@ + spec_ser_weight_range(*w));
}

impl Envelope {
    /// Render the envelope to its transport text, so that the exact
    /// integer tokens cross the boundary as text and lose nothing.
    pub fn serialize(&self) -> (out: Vec<u8>)
        ensures
            out@ == spec_ser_envelope(*self),
    {
        let mut out: Vec<u8> = Vec::new();
        out.push(123);
        push_key_subgraph(&mut out);
        push_subgraph(&mut out, &self.subgraph);
        out.push(44);
        push_key_weight_range(&mut out);
        push_weight_range(&mut out, &self.weight_range);
        match &self.html {
            Some(h) => {
                out.push(44);
                push_key_html(&mut out);
                out.push(34);
                push_escaped(&mut out, h);
                out.push(34);
            },
            None => {},
        }
        match &self.json_doc {
            Some(d) => {
                out.push(44);
                push_key_json(&mut out);
                push_tok(&mut out, d);
            },
            None => {},
        }
        out.push(125);
        assert(out@ =~= spec_ser_envelope(*self));
        out
    }
}

} // verus!
