//! The wire format of a TXT lookup: encoding a query and walking the answer
//! records of a reply, every read checked against the bytes present.
use vstd::prelude::*;
use vstd::string::StringSliceAdditionalSpecFns;

verus! {

/// Why a lookup failed.
#[derive(Debug)]
pub enum Error {
    /// The name is longer than a query may carry.
    NameTooLong,
    /// No server gave an answer.
    OutOfOptions,
    /// A socket operation failed.
    Io(std::io::Error),
}

/// The longest name, in bytes, that a query is built for.
pub const MAX_NAME_LEN: usize = 512;

/// The size of the fixed header of every message.
pub const HEADER_LEN: usize = 12;

/// The record type of a text record.
pub const TYPE_TXT: u16 = 0x10;

/// The class of internet records.
pub const CLASS_IN: u16 = 1;

/// The fixed header of a message, its fields as numbers (big-endian on the
/// wire).
#[derive(Clone, Copy, PartialEq, Eq, Structural, Debug)]
pub struct DnsPacket {
    /// query id
    pub id: u16,
    /// flags
    pub flags: u16,
    /// number of queries
    pub queries: u16,
    /// number of answers
    pub answers: u16,
    /// number of authority records
    pub authorities: u16,
    /// number of additional records
    pub additionals: u16,
}

/// The two big-endian bytes of `v`.
pub open spec fn be_bytes(v: u16) -> Seq<u8> {
    seq![(v / 256) as u8, (v % 256) as u8]
}

/// The big-endian number in bytes `i` and `i + 1` of `p`.
pub open spec fn be16(p: Seq<u8>, i: int) -> u16 {
    (p[i] as int * 256 + p[i + 1] as int) as u16
}

impl DnsPacket {
    /// The twelve bytes of the header.
    pub open spec fn wire(self) -> Seq<u8> {
        be_bytes(self.id) + be_bytes(self.flags) + be_bytes(self.queries) + be_bytes(
            self.answers,
        ) + be_bytes(self.authorities) + be_bytes(self.additionals)
    }

    /// The header of a query: one question, recursion desired, and one
    /// additional record for the size option.
    pub fn query() -> (r: DnsPacket)
        ensures
            r == (DnsPacket {
                id: 0x1337,
                flags: 0x100,
                queries: 1,
                answers: 0,
                authorities: 0,
                additionals: 1,
            }),
    {
        DnsPacket { id: 0x1337, flags: 0x100, queries: 1, answers: 0, authorities: 0, additionals: 1 }
    }

    /// The header as it stands on the wire.
    pub fn to_bytes(&self) -> (r: Vec<u8>)
        ensures
            r@ == self.wire(),
    {
        let mut out: Vec<u8> = Vec::new();
        push_be16(&mut out, self.id);
        push_be16(&mut out, self.flags);
        push_be16(&mut out, self.queries);
        push_be16(&mut out, self.answers);
        push_be16(&mut out, self.authorities);
        push_be16(&mut out, self.additionals);
        out
    }

    /// The header at the start of `p`, or `None` when `p` is shorter than a
    /// header.
    pub fn from_bytes(p: &[u8]) -> (r: Option<DnsPacket>)
        ensures
            p@.len() < HEADER_LEN ==> r is None,
            p@.len() >= HEADER_LEN ==> r == Some(
                DnsPacket {
                    id: be16(p@, 0),
                    flags: be16(p@, 2),
                    queries: be16(p@, 4),
                    answers: be16(p@, 6),
                    authorities: be16(p@, 8),
                    additionals: be16(p@, 10),
                },
            ),
    {
        if p.len() < HEADER_LEN {
            return None;
        }
        Some(
            DnsPacket {
                id: read_be16(p, 0),
                flags: read_be16(p, 2),
                queries: read_be16(p, 4),
                answers: read_be16(p, 6),
                authorities: read_be16(p, 8),
                additionals: read_be16(p, 10),
            },
        )
    }
}

/// Appends the two big-endian bytes of `v`.
fn push_be16(out: &mut Vec<u8>, v: u16)
    ensures
        final(out)@ == old(out)@ + be_bytes(v),
{
    out.push((v / 256) as u8);
    out.push((v % 256) as u8);
    assert(final(out)@ =~= old(out)@ + be_bytes(v));
}

/// The big-endian number in bytes `i` and `i + 1` of `p`.
fn read_be16(p: &[u8], i: usize) -> (r: u16)
    requires
        i + 1 < p@.len(),
    ensures
        r == be16(p@, i as int),
{
    let hi = p[i] as u16;
    let lo = p[i + 1] as u16;
    assert(hi * 256 + lo <= u16::MAX) by (nonlinear_arith)
        requires
            hi <= 255,
            lo <= 255,
    ;
    hi * 256 + lo
}

/// The length of a label as its prefix byte holds it.
pub open spec fn len_byte(n: int) -> u8 {
    (n % 256) as u8
}

/// The labels of `s[start..]` encoded, the current label having begun at
/// `start` and been scanned up to `j`: each label becomes its length byte
/// followed by its bytes, labels being separated by dots.
pub open spec fn encode_from(s: Seq<u8>, start: int, j: int) -> Seq<u8>
    decreases s.len() - j,
{
    if j >= s.len() {
        seq![len_byte(s.len() - start)] + s.subrange(start, s.len() as int)
    } else if s[j] == 0x2e {
        seq![len_byte(j - start)] + s.subrange(start, j) + encode_from(s, j + 1, j + 1)
    } else {
        encode_from(s, start, j + 1)
    }
}

/// A name as a sequence of length-prefixed labels (without the closing
/// empty label).
pub open spec fn encode_name(s: Seq<u8>) -> Seq<u8> {
    encode_from(s, 0, 0)
}

/// What follows the name in a query: the end of the name, type TXT, class
/// internet, and the size option record announcing replies of up to 1000
/// bytes.
pub open spec fn query_trailer() -> Seq<u8> {
    seq![0u8, 0, 0x10, 0, 1, 0, 0, 0x29, 0x03, 0xe8, 0, 0, 0, 0, 0, 0]
}

/// The bytes of a TXT query for the name `s`.
pub open spec fn query_bytes(s: Seq<u8>) -> Seq<u8> {
    DnsPacket {
        id: 0x1337,
        flags: 0x100,
        queries: 1,
        answers: 0,
        authorities: 0,
        additionals: 1,
    }.wire() + encode_name(s) + query_trailer()
}

/// Appends `p[lo..hi]`.
fn push_range(out: &mut Vec<u8>, p: &[u8], lo: usize, hi: usize)
    requires
        lo <= hi <= p@.len(),
    ensures
        final(out)@ == old(out)@ + p@.subrange(lo as int, hi as int),
{
    let mut k: usize = lo;
    while k < hi
        invariant
            lo <= k <= hi,
            hi <= p@.len(),
            out@ == old(out)@ + p@.subrange(lo as int, k as int),
        decreases hi - k,
    {
        out.push(p[k]);
        assert(p@.subrange(lo as int, k + 1) =~= p@.subrange(lo as int, k as int).push(p@[k as int]));
        k = k + 1;
    }
}

/// The bytes of a query for the TXT records of `name`, or `NameTooLong`
/// when the name has more than [`MAX_NAME_LEN`] bytes.
pub fn encode_query(name: &str) -> (r: Result<Vec<u8>, Error>)
    ensures
        name.spec_bytes().len() > MAX_NAME_LEN <==> r matches Err(Error::NameTooLong),
        name.spec_bytes().len() <= MAX_NAME_LEN ==> r is Ok,
        r is Ok ==> r->Ok_0@ == query_bytes(name.spec_bytes()),
{
    let bytes = name.as_bytes();
    if bytes.len() > MAX_NAME_LEN {
        return Err(Error::NameTooLong);
    }
    let ghost s = bytes@;
    let mut out = DnsPacket::query().to_bytes();
    let ghost base = out@;
    let mut start: usize = 0;
    let mut j: usize = 0;
    while j < bytes.len()
        invariant
            s == bytes@,
            start <= j <= s.len(),
            out@ + encode_from(s, start as int, j as int) == base + encode_name(s),
        decreases s.len() - j,
    {
        if bytes[j] == 0x2e {
            let ghost before = out@;
            out.push(((j - start) % 256) as u8);
            push_range(&mut out, bytes, start, j);
            assert(before + encode_from(s, start as int, j as int) =~= out@ + encode_from(
                s,
                j + 1,
                j + 1,
            ));
            start = j + 1;
        }
        j = j + 1;
    }
    let ghost before = out@;
    out.push(((j - start) % 256) as u8);
    push_range(&mut out, bytes, start, j);
    assert(out@ =~= before + encode_from(s, start as int, j as int));
    let ghost named = out@;
    out.push(0);
    out.push(0);
    out.push(0x10);
    out.push(0);
    out.push(1);
    out.push(0);
    out.push(0);
    out.push(0x29);
    out.push(0x03);
    out.push(0xe8);
    out.push(0);
    out.push(0);
    out.push(0);
    out.push(0);
    out.push(0);
    out.push(0);
    assert(out@ =~= named + query_trailer());
    Ok(out)
}

/// Where the scan past one question from `at` ends: five bytes after the
/// zero byte closing its name, or `at` itself when no byte is left to scan.
pub open spec fn skip_label(p: Seq<u8>, at: int) -> int
    decreases p.len() - at,
{
    if at < p.len() - 1 {
        if p[at] == 0 {
            at + 5
        } else {
            skip_label(p, at + 1)
        }
    } else {
        at
    }
}

/// Where the scan past `n` questions from `at` ends.
pub open spec fn skip_queries(p: Seq<u8>, at: int, n: nat) -> int
    decreases n,
{
    if n == 0 {
        at
    } else {
        skip_queries(p, skip_label(p, at), (n - 1) as nat)
    }
}

/// The position before the fixed part of the record whose owner name starts
/// the scan at `at`: at its closing zero byte, or just past the first byte
/// of a compression pointer.
pub open spec fn find_record(p: Seq<u8>, at: int) -> int
    decreases p.len() - at,
{
    if at < p.len() - 1 {
        if p[at] == 0 {
            at
        } else if p[at] == 0xc0 {
            at + 1
        } else {
            find_record(p, at + 1)
        }
    } else {
        at
    }
}

/// The text of a record whose data of `rlen` bytes starts at `at`: the data
/// without its first (length) byte.
pub open spec fn record_text(p: Seq<u8>, at: int, rlen: int) -> Seq<u8> {
    if rlen >= 1 {
        p.subrange(at + 1, at + rlen)
    } else {
        seq![]
    }
}

/// The texts of the TXT records of class internet among `n` answer records
/// from `at`. The walk stops at the first record that does not fit in `p`.
pub open spec fn answers_from(p: Seq<u8>, at: int, n: nat) -> Seq<Seq<u8>>
    decreases n,
{
    if n == 0 {
        seq![]
    } else {
        let a1 = find_record(p, at) + 1;
        let a2 = a1 + 2;
        let a3 = a2 + 6;
        let a4 = a3 + 2;
        if a2 > p.len() || a2 + 2 > p.len() || a4 > p.len() || a4 + be16(p, a3) > p.len() {
            seq![]
        } else {
            let rest = answers_from(p, a4 + be16(p, a3), (n - 1) as nat);
            if be16(p, a1) == TYPE_TXT && be16(p, a2) == CLASS_IN {
                seq![record_text(p, a4, be16(p, a3) as int)] + rest
            } else {
                rest
            }
        }
    }
}

/// The texts of the TXT answers of reply `p`: none when `p` is shorter than
/// a header.
pub open spec fn txt_records_spec(p: Seq<u8>) -> Seq<Seq<u8>> {
    if p.len() < HEADER_LEN {
        seq![]
    } else {
        answers_from(p, skip_queries(p, HEADER_LEN as int, be16(p, 4) as nat), be16(p, 6) as nat)
    }
}

proof fn lemma_find_record_bound(p: Seq<u8>, at: int)
    ensures
        find_record(p, at) >= at,
        at < p.len() ==> find_record(p, at) < p.len(),
        find_record(p, at) <= if at > p.len() { at } else { p.len() as int },
    decreases p.len() - at,
{
    if at < p.len() - 1 && p[at] != 0 && p[at] != 0xc0 {
        lemma_find_record_bound(p, at + 1);
    }
}

/// Scans past one question from `at`.
fn scan_question(p: &[u8], at: usize) -> (r: usize)
    requires
        at <= p@.len() + 3,
        p@.len() + 8 <= usize::MAX,
    ensures
        r == skip_label(p@, at as int),
        r <= p@.len() + 3,
{
    let mut k = at;
    while k + 1 < p.len()
        invariant
            at <= k <= p@.len() + 3,
            p@.len() + 8 <= usize::MAX,
            skip_label(p@, k as int) == skip_label(p@, at as int),
        decreases p@.len() - k,
    {
        if p[k] == 0 {
            return k + 5;
        }
        k = k + 1;
    }
    k
}

/// Scans to the fixed part of the record whose owner name starts at `at`.
fn scan_record(p: &[u8], at: usize) -> (r: usize)
    requires
        at <= p@.len() + 4,
        p@.len() + 8 <= usize::MAX,
    ensures
        r == find_record(p@, at as int),
{
    let mut k = at;
    while k + 1 < p.len()
        invariant
            at <= k <= p@.len() + 4,
            p@.len() + 8 <= usize::MAX,
            find_record(p@, k as int) == find_record(p@, at as int),
        decreases p@.len() - k,
    {
        if p[k] == 0 {
            return k;
        }
        if p[k] == 0xc0 {
            return k + 1;
        }
        k = k + 1;
    }
    k
}

/// The texts of the TXT records of class internet among the answers of
/// reply `p`, in order: the questions are skipped, and the walk stops at the
/// first record that does not fit in the bytes present.
pub fn txt_records(p: &[u8]) -> (r: Vec<Vec<u8>>)
    requires
        p@.len() + 8 <= usize::MAX,
    ensures
        r@.map_values(|v: Vec<u8>| v@) == txt_records_spec(p@),
{
    let mut out: Vec<Vec<u8>> = Vec::new();
    if p.len() < HEADER_LEN {
        assert(out@.map_values(|v: Vec<u8>| v@) =~= txt_records_spec(p@));
        return out;
    }
    let queries = read_be16(p, 4);
    let answers = read_be16(p, 6);
    let mut at: usize = HEADER_LEN;
    let mut q: u16 = 0;
    while q < queries
        invariant
            q <= queries,
            at <= p@.len() + 3,
            p@.len() + 8 <= usize::MAX,
            skip_queries(p@, at as int, (queries - q) as nat) == skip_queries(
                p@,
                HEADER_LEN as int,
                queries as nat,
            ),
        decreases queries - q,
    {
        at = scan_question(p, at);
        q = q + 1;
    }
    let ghost total = txt_records_spec(p@);
    let mut left: u16 = answers;
    while left > 0
        invariant
            at <= p@.len() + 4,
            p@.len() + 8 <= usize::MAX,
            out@.map_values(|v: Vec<u8>| v@) + answers_from(p@, at as int, left as nat) == total,
        ensures
            out@.map_values(|v: Vec<u8>| v@) == total,
        decreases left,
    {
        let ghost prev = out@.map_values(|v: Vec<u8>| v@);
        proof {
            lemma_find_record_bound(p@, at as int);
        }
        let a1 = scan_record(p, at) + 1;
        if a1 > p.len() || p.len() - a1 < 2 {
            proof {
                assert(answers_from(p@, at as int, left as nat) =~= Seq::<Seq<u8>>::empty());
                assert(prev + Seq::<Seq<u8>>::empty() =~= prev);
            }
            break;
        }
        let kind = read_be16(p, a1);
        let a2 = a1 + 2;
        if p.len() - a2 < 2 {
            proof {
                assert(answers_from(p@, at as int, left as nat) =~= Seq::<Seq<u8>>::empty());
                assert(prev + Seq::<Seq<u8>>::empty() =~= prev);
            }
            break;
        }
        let class = read_be16(p, a2);
        let a3 = a2 + 6;
        if a3 > p.len() || p.len() - a3 < 2 {
            proof {
                assert(answers_from(p@, at as int, left as nat) =~= Seq::<Seq<u8>>::empty());
                assert(prev + Seq::<Seq<u8>>::empty() =~= prev);
            }
            break;
        }
        let rlen = read_be16(p, a3) as usize;
        let a4 = a3 + 2;
        if p.len() - a4 < rlen {
            proof {
                assert(answers_from(p@, at as int, left as nat) =~= Seq::<Seq<u8>>::empty());
                assert(prev + Seq::<Seq<u8>>::empty() =~= prev);
            }
            break;
        }
        if kind == TYPE_TXT && class == CLASS_IN {
            let mut text: Vec<u8> = Vec::new();
            if rlen >= 1 {
                push_range(&mut text, p, a4 + 1, a4 + rlen);
            }
            assert(text@ =~= record_text(p@, a4 as int, rlen as int));
            out.push(text);
            assert(out@.map_values(|v: Vec<u8>| v@) =~= prev.push(text@));
        }
        at = a4 + rlen;
        left = left - 1;
    }
    out
}

/// The text that lossy UTF-8 decoding makes of `b`.
pub uninterp spec fn lossy_text(b: Seq<u8>) -> Seq<char>;

/// Relies on String::from_utf8_lossy: the text of `b`, each invalid
/// sequence replaced by U+FFFD; no bytes give no text.
#[verifier::external_body]
fn text_of(b: &[u8]) -> (r: String)
    ensures
        r@ == lossy_text(b@),
        b@.len() == 0 ==> r@.len() == 0,
{
    String::from_utf8_lossy(b).into_owned()
}

/// How long a lookup waits on its socket before checking again.
pub const POLL_WAIT_MS: u64 = 2000;

/// How long one server is given to answer one name.
pub const ATTEMPT_TIMEOUT_MS: u64 = 5000;

/// Whether the attempt begun at `started_ms` has run out of time at
/// `now_ms`.
pub fn attempt_expired(started_ms: u64, now_ms: u64) -> (r: bool)
    ensures
        r == (now_ms >= started_ms && now_ms - started_ms >= ATTEMPT_TIMEOUT_MS),
{
    now_ms >= started_ms && now_ms - started_ms >= ATTEMPT_TIMEOUT_MS
}

/// What a datagram from the server asked means for a lookup.
#[derive(Debug)]
pub enum Reply {
    /// Too short to be a reply: keep waiting.
    Ignore,
    /// A reply without a TXT answer: try the next name or server.
    NextAttempt,
    /// The texts of the TXT answers, in order.
    Answers(Vec<String>),
}

/// Judges datagram `p` received from the server asked: a reply shorter
/// than a header is ignored; one with TXT answers gives their texts.
pub fn judge_reply(p: &[u8]) -> (r: Reply)
    requires
        p@.len() + 8 <= usize::MAX,
    ensures
        p@.len() < HEADER_LEN <==> r is Ignore,
        p@.len() >= HEADER_LEN && txt_records_spec(p@).len() == 0 <==> r is NextAttempt,
        r is Answers ==> r->Answers_0@.len() == txt_records_spec(p@).len() && r->Answers_0@.len() > 0
            && forall|i: int|
            0 <= i < r->Answers_0@.len() ==> (#[trigger] r->Answers_0@[i])@ == lossy_text(
                txt_records_spec(p@)[i],
            ),
{
    if p.len() < HEADER_LEN {
        return Reply::Ignore;
    }
    let texts = answer_texts(p);
    if texts.len() == 0 {
        Reply::NextAttempt
    } else {
        Reply::Answers(texts)
    }
}

/// The texts of the TXT answers of reply `p`, decoded as lossy UTF-8.
pub fn answer_texts(p: &[u8]) -> (r: Vec<String>)
    requires
        p@.len() + 8 <= usize::MAX,
    ensures
        r@.len() == txt_records_spec(p@).len(),
        forall|i: int| 0 <= i < r@.len() ==> (#[trigger] r@[i])@ == lossy_text(txt_records_spec(p@)[i]),
{
    let records = txt_records(p);
    let ghost spec = txt_records_spec(p@);
    assert(records@.len() == spec.len()) by {
        assert(records@.map_values(|v: Vec<u8>| v@).len() == records@.len());
    }
    let mut out: Vec<String> = Vec::new();
    let mut i: usize = 0;
    while i < records.len()
        invariant
            i <= records@.len(),
            records@.len() == spec.len(),
            records@.map_values(|v: Vec<u8>| v@) == spec,
            out@.len() == i,
            forall|k: int| 0 <= k < i ==> (#[trigger] out@[k])@ == lossy_text(spec[k]),
        decreases records@.len() - i,
    {
        let t = text_of(records[i].as_slice());
        assert(records@.map_values(|v: Vec<u8>| v@)[i as int] == records@[i as int]@);
        out.push(t);
        i = i + 1;
    }
    out
}

/// An ASCII whitespace byte: space, tab, line feed, vertical tab, form
/// feed or carriage return.
pub open spec fn is_space(b: u8) -> bool {
    b == 32 || (9 <= b && b <= 13)
}

/// The first position from `i` on that is not whitespace (or the end).
pub open spec fn skip_space(s: Seq<u8>, i: int) -> int
    decreases s.len() - i,
{
    if 0 <= i < s.len() && is_space(s[i]) {
        skip_space(s, i + 1)
    } else {
        i
    }
}

/// The end of the word starting at `i`: the first whitespace position from
/// `i` on (or the end).
pub open spec fn word_end(s: Seq<u8>, i: int) -> int
    decreases s.len() - i,
{
    if 0 <= i < s.len() && !is_space(s[i]) {
        word_end(s, i + 1)
    } else {
        i
    }
}

/// The keyword that opens a name server line of a resolver configuration.
pub open spec fn nameserver_keyword() -> Seq<u8> {
    seq![0x6eu8, 0x61, 0x6d, 0x65, 0x73, 0x65, 0x72, 0x76, 0x65, 0x72]
}

/// The address word of a resolver configuration line: the second word,
/// when the first is `nameserver` and a second one follows.
pub open spec fn nameserver_spec(s: Seq<u8>) -> Option<Seq<u8>> {
    let a = skip_space(s, 0);
    let b = word_end(s, a);
    let c = skip_space(s, b);
    let d = word_end(s, c);
    if s.subrange(a, b) == nameserver_keyword() && c < d {
        Some(s.subrange(c, d))
    } else {
        None
    }
}

proof fn lemma_scan_bounds(s: Seq<u8>, i: int)
    requires
        0 <= i <= s.len(),
    ensures
        i <= skip_space(s, i) <= s.len(),
        i <= word_end(s, i) <= s.len(),
    decreases s.len() - i,
{
    if i < s.len() {
        lemma_scan_bounds(s, i + 1);
    }
}

/// The first position from `i` on that is not whitespace.
fn scan_space(s: &[u8], i: usize) -> (r: usize)
    requires
        i <= s@.len(),
    ensures
        r == skip_space(s@, i as int),
{
    let mut k = i;
    while k < s.len() && (s[k] == 32 || (9 <= s[k] && s[k] <= 13))
        invariant
            i <= k <= s@.len(),
            skip_space(s@, k as int) == skip_space(s@, i as int),
        decreases s@.len() - k,
    {
        k = k + 1;
    }
    k
}

/// The end of the word starting at `i`.
fn scan_word(s: &[u8], i: usize) -> (r: usize)
    requires
        i <= s@.len(),
    ensures
        r == word_end(s@, i as int),
{
    let mut k = i;
    while k < s.len() && !(s[k] == 32 || (9 <= s[k] && s[k] <= 13))
        invariant
            i <= k <= s@.len(),
            word_end(s@, k as int) == word_end(s@, i as int),
        decreases s@.len() - k,
    {
        k = k + 1;
    }
    k
}

/// The address word of a resolver configuration line, when the line names
/// a name server.
pub fn nameserver_address(line: &[u8]) -> (r: Option<Vec<u8>>)
    ensures
        r is None <==> nameserver_spec(line@) is None,
        r is Some ==> r->Some_0@ == nameserver_spec(line@)->Some_0,
{
    proof {
        lemma_scan_bounds(line@, 0);
    }
    let a = scan_space(line, 0);
    proof {
        lemma_scan_bounds(line@, a as int);
    }
    let b = scan_word(line, a);
    proof {
        lemma_scan_bounds(line@, b as int);
    }
    let c = scan_space(line, b);
    proof {
        lemma_scan_bounds(line@, c as int);
    }
    let d = scan_word(line, c);
    let keyword: [u8; 10] = [0x6e, 0x61, 0x6d, 0x65, 0x73, 0x65, 0x72, 0x76, 0x65, 0x72];
    assert(keyword@ =~= nameserver_keyword());
    if b - a != 10 {
        assert(line@.subrange(a as int, b as int).len() != nameserver_keyword().len());
        return None;
    }
    let mut k: usize = 0;
    while k < 10
        invariant
            k <= 10,
            b - a == 10,
            a <= b <= line@.len(),
            keyword@ == nameserver_keyword(),
            a == skip_space(line@, 0),
            b == word_end(line@, a as int),
            c == skip_space(line@, b as int),
            d == word_end(line@, c as int),
            forall|j: int| 0 <= j < k ==> line@[a + j] == keyword@[j],
        decreases 10 - k,
    {
        if line[a + k] != keyword[k] {
            assert(line@.subrange(a as int, b as int)[k as int] != nameserver_keyword()[k as int]);
            return None;
        }
        k = k + 1;
    }
    assert(line@.subrange(a as int, b as int) =~= nameserver_keyword());
    if c >= d {
        return None;
    }
    let mut out: Vec<u8> = Vec::new();
    push_range(&mut out, line, c, d);
    assert(out@ =~= line@.subrange(c as int, d as int));
    Some(out)
}

/// What one read of a lookup's socket gave.
pub enum Received {
    /// Nothing to read yet.
    Nothing,
    /// The read failed.
    Failed(std::io::Error),
    /// A datagram; `from_server` tells whether it came from the server
    /// asked.
    Datagram { from_server: bool, bytes: Vec<u8> },
}

/// What a lookup does next.
pub enum Next {
    /// Wait on the socket again.
    Wait,
    /// Give up on this (server, name) pair and try the next.
    NextAttempt,
    /// The lookup is over, with this result.
    Finish(Result<Vec<String>, Error>),
}

/// Decides what a lookup does after reading its socket: a failed read ends
/// it with that error; a datagram from another sender, or one too short to
/// be a reply, is ignored; a reply without TXT answers moves on; one with
/// answers ends the lookup with their texts.
pub fn on_receive(rcv: Received) -> (n: Next)
    requires
        rcv matches Received::Datagram { from_server: _, bytes } ==> bytes@.len() + 8 <= usize::MAX,
    ensures
        match rcv {
            Received::Nothing => n is Wait,
            Received::Failed(e) => n == Next::Finish(Err(Error::Io(e))),
            Received::Datagram { from_server, bytes } => if !from_server || bytes@.len()
                < HEADER_LEN {
                n is Wait
            } else if txt_records_spec(bytes@).len() == 0 {
                n is NextAttempt
            } else {
                n matches Next::Finish(Ok(v)) && v@.len() == txt_records_spec(bytes@).len()
                    && forall|i: int|
                    0 <= i < v@.len() ==> (#[trigger] v@[i])@ == lossy_text(
                        txt_records_spec(bytes@)[i],
                    )
            },
        },
{
    match rcv {
        Received::Nothing => Next::Wait,
        Received::Failed(e) => Next::Finish(Err(Error::Io(e))),
        Received::Datagram { from_server, bytes } => {
            if !from_server {
                return Next::Wait;
            }
            match judge_reply(bytes.as_slice()) {
                Reply::Ignore => Next::Wait,
                Reply::NextAttempt => Next::NextAttempt,
                Reply::Answers(v) => Next::Finish(Ok(v)),
            }
        },
    }
}

/// The order in which a lookup asks: every name at the first server, then
/// every name at the next one, and so on.
pub struct Attempts {
    servers: usize,
    names: usize,
    done: usize,
}

impl Attempts {
    /// How many (server, name) pairs have been handed out.
    pub closed spec fn count(self) -> nat {
        self.done as nat
    }

    /// The number of servers.
    pub closed spec fn server_count(self) -> nat {
        self.servers as nat
    }

    /// The number of names.
    pub closed spec fn name_count(self) -> nat {
        self.names as nat
    }

    /// The count of pairs fits in a `usize`, and no more than all of them
    /// were handed out.
    pub closed spec fn wf(self) -> bool {
        self.servers * self.names <= usize::MAX && self.done <= self.servers * self.names
    }

    /// No pair handed out yet over `servers` servers and `names` names.
    pub fn new(servers: usize, names: usize) -> (r: Attempts)
        requires
            servers * names <= usize::MAX,
        ensures
            r.wf(),
            r.count() == 0,
            r.server_count() == servers,
            r.name_count() == names,
    {
        Attempts { servers, names, done: 0 }
    }

    /// The next (server, name) pair, or `None` once every pair was handed
    /// out.
    pub fn next(&mut self) -> (r: Option<(usize, usize)>)
        requires
            old(self).wf(),
        ensures
            final(self).wf(),
            final(self).server_count() == old(self).server_count(),
            final(self).name_count() == old(self).name_count(),
            old(self).count() < old(self).server_count() * old(self).name_count() ==> {
                &&& r == Some(
                    (
                        (old(self).count() / old(self).name_count()) as usize,
                        (old(self).count() % old(self).name_count()) as usize,
                    ),
                )
                &&& r->Some_0.0 < old(self).server_count()
                &&& final(self).count() == old(self).count() + 1
            },
            old(self).count() >= old(self).server_count() * old(self).name_count() ==> r is None
                && final(self).count() == old(self).count(),
    {
        if self.names == 0 {
            assert(self.servers * self.names == 0) by (nonlinear_arith)
                requires
                    self.names == 0,
            ;
            return None;
        }
        let server = self.done / self.names;
        if server >= self.servers {
            assert(self.done >= self.servers * self.names) by (nonlinear_arith)
                requires
                    self.names > 0,
                    server == self.done / self.names,
                    server >= self.servers,
            ;
            return None;
        }
        let name = self.done % self.names;
        assert(self.done < self.servers * self.names) by (nonlinear_arith)
            requires
                self.names > 0,
                server == self.done / self.names,
                server < self.servers,
        ;
        self.done = self.done + 1;
        Some((server, name))
    }
}

} // verus!
