//! Domain name codec: a name is an ordered sequence of labels, held
//! canonically as the dot-joined text. Encoding emits one length byte per
//! label followed by the label's octets and a terminating zero byte; decoding
//! reads labels and follows compression pointers, with a hop limit guarding
//! against cyclic pointer chains.

use vstd::prelude::*;
use vstd::string::{StrSliceExecFns, StringSliceAdditionalSpecFns};

use crate::wire::{DeserializationError, Field};

verus! {

/// The dot that separates labels in the text form of a name.
pub const NAME_DOT: u8 = 46;

/// The one byte besides letters and digits that a label may contain.
pub const NAME_HYPHEN: u8 = 45;

/// Longest label, in octets.
pub const MAX_LABEL_LEN: usize = 63;

/// Longest dot-joined text of a name, in octets. The wire form of a name
/// adds one length byte per label and the terminator, so a text of this
/// length encodes to at most 255 octets.
pub const MAX_NAME_LEN: usize = 253;

/// Most compression pointers the decoder follows while resolving one name;
/// a longer chain is treated as malformed, which keeps decoding total on
/// cyclic or adversarial pointer input.
pub const POINTER_HOP_LIMIT: u32 = 16;

pub open spec fn is_letter(b: u8) -> bool {
    (97 <= b <= 122) || (65 <= b <= 90)
}

pub open spec fn is_digit(b: u8) -> bool {
    48 <= b <= 57
}

pub open spec fn is_alnum(b: u8) -> bool {
    is_letter(b) || is_digit(b)
}

/// A byte that may appear inside a label: a letter, a digit, or a hyphen.
pub open spec fn is_name_byte(b: u8) -> bool {
    is_alnum(b) || b == NAME_HYPHEN
}

/// One well-formed label: 1 to 63 octets of letters, digits and hyphens,
/// neither starting nor ending with a hyphen.
pub open spec fn valid_label(l: Seq<u8>) -> bool {
    &&& 1 <= l.len() <= MAX_LABEL_LEN
    &&& (forall|i: int| 0 <= i < l.len() ==> is_name_byte(#[trigger] l[i]))
    &&& is_alnum(l[0])
    &&& is_alnum(l[l.len() - 1])
}

/// The labels of a dot-joined text, split at every dot. The empty text has
/// one empty label, so a text is never split into zero labels.
pub open spec fn split_labels(t: Seq<u8>) -> Seq<Seq<u8>>
    decreases t.len(),
{
    if t.len() == 0 {
        seq![Seq::<u8>::empty()]
    } else if t[0] == NAME_DOT {
        seq![Seq::<u8>::empty()] + split_labels(t.skip(1))
    } else {
        let rest = split_labels(t.skip(1));
        seq![seq![t[0]] + rest[0]] + rest.skip(1)
    }
}

/// The dot-joined text of a sequence of labels.
pub open spec fn join_labels(ls: Seq<Seq<u8>>) -> Seq<u8>
    decreases ls.len(),
{
    if ls.len() == 0 {
        Seq::<u8>::empty()
    } else if ls.len() == 1 {
        ls[0]
    } else {
        ls[0] + seq![NAME_DOT] + join_labels(ls.skip(1))
    }
}

/// The domain-name grammar: a text of bounded length whose every
/// dot-separated label is well formed. In particular the text is nonempty
/// and has no empty labels.
pub open spec fn valid_name(t: Seq<u8>) -> bool {
    &&& t.len() <= MAX_NAME_LEN
    &&& (forall|i: int|
        0 <= i < split_labels(t).len() ==> valid_label(#[trigger] split_labels(t)[i]))
}

/// The wire form of a sequence of labels: for each label one length byte
/// followed by the label's octets, without the terminator.
pub open spec fn labels_wire(ls: Seq<Seq<u8>>) -> Seq<u8>
    decreases ls.len(),
{
    if ls.len() == 0 {
        Seq::<u8>::empty()
    } else {
        seq![ls[0].len() as u8] + ls[0] + labels_wire(ls.skip(1))
    }
}

/// The wire form of a name: its labels, length-prefixed, then one zero byte.
pub open spec fn name_wire(t: Seq<u8>) -> Seq<u8> {
    labels_wire(split_labels(t)) + seq![0u8]
}

pub broadcast proof fn lemma_split_nonempty(t: Seq<u8>)
    ensures
        #[trigger] split_labels(t).len() >= 1,
    decreases t.len(),
{
    if t.len() == 0 {
    } else {
        lemma_split_nonempty(t.skip(1));
    }
}

/// A dot-free text is a single label.
pub proof fn lemma_split_nodot(l: Seq<u8>)
    requires
        forall|i: int| 0 <= i < l.len() ==> l[i] != NAME_DOT,
    ensures
        split_labels(l) =~~= seq![l],
    decreases l.len(),
{
    if l.len() == 0 {
    } else {
        lemma_split_nodot(l.skip(1));
        broadcast use lemma_split_nonempty;

        assert(seq![l[0]] + l.skip(1) =~= l);
    }
}

/// Splitting distributes over a dot: the labels of `a ++ . ++ b` are the
/// labels of `a` followed by the labels of `b`.
pub proof fn lemma_split_concat_dot(a: Seq<u8>, b: Seq<u8>)
    ensures
        split_labels(a + seq![NAME_DOT] + b) =~~= split_labels(a) + split_labels(b),
    decreases a.len(),
{
    broadcast use lemma_split_nonempty;

    if a.len() == 0 {
        assert(a + seq![NAME_DOT] + b =~= seq![NAME_DOT] + b);
        assert((seq![NAME_DOT] + b).skip(1) =~= b);
    } else {
        lemma_split_concat_dot(a.skip(1), b);
        assert((a + seq![NAME_DOT] + b).skip(1) =~= a.skip(1) + seq![NAME_DOT] + b);
        if a[0] != NAME_DOT {
            assert(split_labels(a.skip(1)) + split_labels(b) =~= (split_labels(a.skip(1))
                + split_labels(b)));
            assert((split_labels(a.skip(1)) + split_labels(b))[0] == split_labels(a.skip(1))[0]);
            assert((split_labels(a.skip(1)) + split_labels(b)).skip(1) =~= split_labels(
                a.skip(1),
            ).skip(1) + split_labels(b));
        }
    }
}

/// Joining the labels of a text gives the text back.
pub proof fn lemma_join_split_id(t: Seq<u8>)
    ensures
        join_labels(split_labels(t)) =~~= t,
    decreases t.len(),
{
    broadcast use lemma_split_nonempty;

    if t.len() == 0 {
    } else if t[0] == NAME_DOT {
        lemma_join_split_id(t.skip(1));
        let ls = seq![Seq::<u8>::empty()] + split_labels(t.skip(1));
        assert(ls.skip(1) =~= split_labels(t.skip(1)));
        assert(join_labels(ls) =~= ls[0] + seq![NAME_DOT] + join_labels(ls.skip(1)));
        assert(Seq::<u8>::empty() + seq![NAME_DOT] + t.skip(1) =~= t);
    } else {
        lemma_join_split_id(t.skip(1));
        let rest = split_labels(t.skip(1));
        let ls = seq![seq![t[0]] + rest[0]] + rest.skip(1);
        if rest.len() == 1 {
            assert(ls.len() == 1);
            assert(join_labels(rest) == rest[0]);
            assert(join_labels(ls) =~= seq![t[0]] + rest[0]);
            assert(seq![t[0]] + t.skip(1) =~= t);
        } else {
            assert(ls.skip(1) =~= rest.skip(1));
            assert(join_labels(rest) =~= rest[0] + seq![NAME_DOT] + join_labels(rest.skip(1)));
            assert(join_labels(ls) =~= (seq![t[0]] + rest[0]) + seq![NAME_DOT] + join_labels(
                rest.skip(1),
            ));
            assert(join_labels(ls) =~= seq![t[0]] + join_labels(rest));
            assert(seq![t[0]] + t.skip(1) =~= t);
        }
    }
}

/// The run of a text from `start` up to the next dot (at `j`, or the end) is
/// the first label of the text's tail, and the labels after it are those of
/// the text past the dot.
pub proof fn lemma_split_run(t: Seq<u8>, start: int, j: int)
    requires
        0 <= start <= j <= t.len(),
        forall|i: int| start <= i < j ==> t[i] != NAME_DOT,
        j == t.len() || t[j] == NAME_DOT,
    ensures
        j == t.len() ==> split_labels(t.skip(start)) =~~= seq![t.subrange(start, j)],
        j < t.len() ==> split_labels(t.skip(start)) =~~= seq![t.subrange(start, j)]
            + split_labels(t.skip(j + 1)),
{
    let run = t.subrange(start, j);
    assert(forall|i: int| 0 <= i < run.len() ==> run[i] != NAME_DOT);
    if j == t.len() {
        assert(t.skip(start) =~= run);
        lemma_split_nodot(run);
    } else {
        assert(t.skip(start) =~= run + seq![NAME_DOT] + t.skip(j + 1));
        lemma_split_concat_dot(run, t.skip(j + 1));
        lemma_split_nodot(run);
    }
}

/// A domain name, held as its dot-joined text. Immutable once constructed;
/// a value of this type always satisfies the domain-name grammar, and never
/// records wire-compression details.
#[derive(Debug)]
pub struct DomainName {
    text: Vec<u8>,
}

impl View for DomainName {
    type V = Seq<u8>;

    closed spec fn view(&self) -> Seq<u8> {
        self.text@
    }
}

impl DomainName {
    /// Every domain name satisfies the grammar.
    #[verifier::type_invariant]
    pub open spec fn wf(self) -> bool {
        valid_name(self@)
    }
}

fn byte_is_alnum(b: u8) -> (r: bool)
    ensures
        r == is_alnum(b),
{
    (97 <= b && b <= 122) || (65 <= b && b <= 90) || (48 <= b && b <= 57)
}

fn byte_is_name_byte(b: u8) -> (r: bool)
    ensures
        r == is_name_byte(b),
{
    byte_is_alnum(b) || b == NAME_HYPHEN
}

/// Whether the `len` bytes at `start` form one well-formed label.
fn check_label(bytes: &[u8], start: usize, len: usize) -> (r: bool)
    requires
        start + len <= bytes@.len(),
    ensures
        r == valid_label(bytes@.subrange(start as int, start + len)),
{
    let l = Ghost(bytes@.subrange(start as int, start + len));
    let n_total = bytes.len();
    if len == 0 || len > MAX_LABEL_LEN {
        return false;
    }
    if !byte_is_alnum(bytes[start]) || !byte_is_alnum(bytes[start + len - 1]) {
        return false;
    }
    let mut k: usize = 0;
    while k < len
        invariant
            start + len <= bytes@.len(),
            bytes@.len() == n_total,
            0 <= k <= len,
            l@ == bytes@.subrange(start as int, start + len),
            forall|i: int| 0 <= i < k ==> is_name_byte(#[trigger] l@[i]),
        decreases len - k,
    {
        if !byte_is_name_byte(bytes[start + k]) {
            assert(!is_name_byte(l@[k as int]));
            return false;
        }
        k += 1;
    }
    true
}

impl DomainName {
    /// Builds a domain name from its dot-joined text, accepting exactly the
    /// texts that satisfy the grammar: dot-separated labels of 1 to 63
    /// letters, digits and hyphens, with no leading or trailing hyphen, the
    /// whole text at most 253 octets.
    pub fn from_text_bytes(text: Vec<u8>) -> (r: Result<DomainName, DeserializationError>)
        ensures
            match r {
                Ok(dn) => dn@ == text@ && valid_name(text@),
                Err(e) => !valid_name(text@) && e == DeserializationError::InvalidData(
                    Field::Name,
                    0,
                ),
            },
    {
        let n = text.len();
        if n > MAX_NAME_LEN || n == 0 {
            proof {
                broadcast use lemma_split_nonempty;

                if n == 0 {
                    assert(split_labels(text@)[0] =~= Seq::<u8>::empty());
                    assert(!valid_label(split_labels(text@)[0]));
                }
            }
            return Err(DeserializationError::InvalidData(Field::Name, 0));
        }
        let mut start: usize = 0;
        let ghost done: Seq<Seq<u8>> = Seq::empty();
        let mut done = Ghost(done);
        proof {
            assert(text@.skip(0) =~= text@);
        }
        loop
            invariant
                n == text@.len(),
                1 <= n <= MAX_NAME_LEN,
                0 <= start <= n,
                split_labels(text@) =~= done@ + split_labels(text@.skip(start as int)),
                forall|i: int| 0 <= i < done@.len() ==> valid_label(#[trigger] done@[i]),
            decreases n - start,
        {
            let mut j: usize = start;
            while j < n && text[j] != NAME_DOT
                invariant
                    n == text@.len(),
                    start <= j <= n,
                    forall|i: int| start <= i < j ==> text@[i] != NAME_DOT,
                decreases n - j,
            {
                j += 1;
            }
            proof {
                lemma_split_run(text@, start as int, j as int);
                broadcast use lemma_split_nonempty;

            }
            let ghost label = text@.subrange(start as int, j as int);
            if !check_label(text.as_slice(), start, j - start) {
                proof {
                    assert(text@.subrange(start as int, start + (j - start)) =~= label);
                    assert(split_labels(text@)[done@.len() as int] == label);
                }
                return Err(DeserializationError::InvalidData(Field::Name, 0));
            }
            proof {
                assert(text@.subrange(start as int, start + (j - start)) =~= label);
            }
            if j == n {
                proof {
                    assert(split_labels(text@) =~= done@ + seq![label]);
                }
                return Ok(DomainName { text });
            }
            proof {
                done@ = done@ + seq![label];
                assert(split_labels(text@) =~= done@ + split_labels(text@.skip(j + 1)));
            }
            start = j + 1;
        }
    }

    /// Builds a domain name from a string slice, accepting exactly the
    /// strings whose UTF-8 bytes satisfy the grammar (such strings are all
    /// ASCII, since every byte must be a letter, a digit or a separator).
    pub fn from_string(domain_name: &str) -> (r: Result<DomainName, DeserializationError>)
        ensures
            match r {
                Ok(dn) => dn@ == domain_name.spec_bytes() && valid_name(domain_name.spec_bytes()),
                Err(e) => !valid_name(domain_name.spec_bytes()) && e
                    == DeserializationError::InvalidData(Field::Name, 0),
            },
    {
        DomainName::from_text_bytes(domain_name.as_bytes_vec())
    }

    /// The dot-joined text of the name.
    pub fn text(&self) -> (r: &Vec<u8>)
        ensures
            r@ == self@,
    {
        &self.text
    }

    /// A fresh copy of the name.
    pub fn duplicate(&self) -> (r: DomainName)
        ensures
            r@ == self@,
    {
        proof {
            use_type_invariant(self);
        }
        let mut text: Vec<u8> = Vec::new();
        let mut k: usize = 0;
        while k < self.text.len()
            invariant
                0 <= k <= self.text@.len(),
                text@ =~= self.text@.subrange(0, k as int),
            decreases self.text@.len() - k,
        {
            text.push(self.text[k]);
            k += 1;
        }
        proof {
            assert(text@ =~= self.text@);
        }
        DomainName { text }
    }

    /// Encodes the name: for each label one length byte then the label's
    /// octets, terminated by a single zero byte.
    pub fn serialize(&self) -> (out: Vec<u8>)
        ensures
            out@ == name_wire(self@),
    {
        proof {
            use_type_invariant(self);
        }
        let n = self.text.len();
        let mut out: Vec<u8> = Vec::new();
        let mut start: usize = 0;
        let ghost done: Seq<Seq<u8>> = Seq::empty();
        let mut done = Ghost(done);
        proof {
            assert(self.text@.skip(0) =~= self.text@);
            assert(out@ =~= labels_wire(done@));
        }
        loop
            invariant
                valid_name(self.text@),
                n == self.text@.len(),
                0 <= start <= n,
                split_labels(self.text@) =~= done@ + split_labels(self.text@.skip(start as int)),
                out@ == labels_wire(done@),
            decreases n - start,
        {
            let mut j: usize = start;
            while j < n && self.text[j] != NAME_DOT
                invariant
                    n == self.text@.len(),
                    start <= j <= n,
                    forall|i: int| start <= i < j ==> self.text@[i] != NAME_DOT,
                decreases n - j,
            {
                j += 1;
            }
            proof {
                lemma_split_run(self.text@, start as int, j as int);
                broadcast use lemma_split_nonempty;

            }
            let ghost label = self.text@.subrange(start as int, j as int);
            proof {
                assert(split_labels(self.text@)[done@.len() as int] == label);
                assert(valid_label(label));
            }
            out.push((j - start) as u8);
            let mut k: usize = start;
            while k < j
                invariant
                    n == self.text@.len(),
                    start <= k <= j <= n,
                    label == self.text@.subrange(start as int, j as int),
                    out@ =~= labels_wire(done@) + seq![label.len() as u8] + self.text@.subrange(
                        start as int,
                        k as int,
                    ),
                decreases j - k,
            {
                out.push(self.text[k]);
                k += 1;
            }
            proof {
                lemma_labels_wire_push(done@, label);
                assert(out@ =~= labels_wire(done@ + seq![label]));
                done@ = done@ + seq![label];
            }
            if j == n {
                proof {
                    assert(split_labels(self.text@) =~= done@);
                }
                out.push(0);
                proof {
                    assert(out@ =~= name_wire(self.text@));
                }
                return out;
            }
            start = j + 1;
        }
    }
}

/// What decoding a name yields: the dot-joined text, and how many bytes the
/// name occupies measured from the original read position. A literal label
/// contributes its length byte plus its octets; the terminator contributes
/// one byte only when no pointer was followed; the first pointer contributes
/// exactly two bytes, whatever was visited while resolving it.
#[verifier::ext_equal]
pub struct NameParse {
    pub text: Seq<u8>,
    pub consumed: int,
}

/// Joins two pieces of dot-joined text, dropping the dot when either side is
/// empty.
pub open spec fn join_part(a: Seq<u8>, b: Seq<u8>) -> Seq<u8> {
    if a.len() == 0 {
        b
    } else if b.len() == 0 {
        a
    } else {
        a + seq![NAME_DOT] + b
    }
}

/// Reads labels at `pos`, following up to `hops` compression pointers. The
/// length byte's top two bits both set mark a pointer; zero ends the name;
/// any other value up to 63 prefixes a literal label, which must be a
/// well-formed label or the name is invalid data. Any out-of-range index is
/// a buffer overflow, and a pointer met with no hops left is invalid data.
pub open spec fn parse_labels(buf: Seq<u8>, pos: int, hops: nat) -> Result<
    NameParse,
    DeserializationError,
>
    decreases hops, buf.len() - pos,
{
    if pos < 0 || pos >= buf.len() {
        Err(DeserializationError::BufferOverflow)
    } else {
        let b = buf[pos];
        if b == 0 {
            Ok(NameParse { text: Seq::empty(), consumed: 1 })
        } else if b >= 0xC0 {
            if pos + 1 >= buf.len() {
                Err(DeserializationError::BufferOverflow)
            } else {
                let target = (b - 0xC0) * 256 + buf[pos + 1];
                if hops == 0 {
                    Err(DeserializationError::InvalidData(Field::Pointer, target as u16))
                } else {
                    match parse_labels(buf, target as int, (hops - 1) as nat) {
                        Ok(p) => Ok(NameParse { text: p.text, consumed: 2 }),
                        Err(e) => Err(e),
                    }
                }
            }
        } else if b > 63 {
            Err(DeserializationError::InvalidData(Field::Name, b as u16))
        } else if pos + 1 + b > buf.len() {
            Err(DeserializationError::BufferOverflow)
        } else {
            let label = buf.subrange(pos + 1, pos + 1 + b);
            if !valid_label(label) {
                Err(DeserializationError::InvalidData(Field::Name, b as u16))
            } else {
                match parse_labels(buf, pos + 1 + b, hops) {
                    Ok(p) => Ok(
                        NameParse { text: join_part(label, p.text), consumed: 1 + b + p.consumed },
                    ),
                    Err(e) => Err(e),
                }
            }
        }
    }
}

/// What decoding a name at `pos` yields: the labels read by `parse_labels`
/// under the hop limit, rejected as invalid data when the assembled text is
/// empty (a name must have at least one label) or longer than a name may be.
pub open spec fn spec_parse_name(buf: Seq<u8>, pos: int) -> Result<
    NameParse,
    DeserializationError,
> {
    match parse_labels(buf, pos, POINTER_HOP_LIMIT as nat) {
        Ok(p) => {
            if p.text.len() == 0 || p.text.len() > MAX_NAME_LEN {
                Err(DeserializationError::InvalidData(Field::Name, 0))
            } else {
                Ok(p)
            }
        },
        Err(e) => Err(e),
    }
}

/// Joining is associative when the middle piece is nonempty.
proof fn lemma_join_part_assoc(a: Seq<u8>, l: Seq<u8>, r: Seq<u8>)
    requires
        l.len() > 0,
    ensures
        join_part(a, join_part(l, r)) =~~= join_part(join_part(a, l), r),
{
}

/// Every label of the text that `parse_labels` assembles is well formed.
proof fn lemma_parse_text_valid(buf: Seq<u8>, pos: int, hops: nat)
    ensures
        match parse_labels(buf, pos, hops) {
            Ok(p) => p.text.len() == 0 || forall|i: int|
                0 <= i < split_labels(p.text).len() ==> valid_label(
                    #[trigger] split_labels(p.text)[i],
                ),
            Err(e) => true,
        },
    decreases hops, buf.len() - pos,
{
    broadcast use lemma_split_nonempty;

    if pos < 0 || pos >= buf.len() {
    } else {
        let b = buf[pos];
        if b == 0 {
        } else if b >= 0xC0 {
            if pos + 1 < buf.len() {
                let target = (b - 0xC0) * 256 + buf[pos + 1];
                if hops > 0 {
                    lemma_parse_text_valid(buf, target as int, (hops - 1) as nat);
                }
            }
        } else if b > 63 {
        } else if pos + 1 + b > buf.len() {
        } else {
            let label = buf.subrange(pos + 1, pos + 1 + b);
            if valid_label(label) {
                lemma_parse_text_valid(buf, pos + 1 + b, hops);
                assert(forall|i: int| 0 <= i < label.len() ==> label[i] != NAME_DOT);
                match parse_labels(buf, pos + 1 + b, hops) {
                    Ok(p) => {
                        if p.text.len() == 0 {
                            lemma_split_nodot(label);
                        } else {
                            lemma_split_concat_dot(label, p.text);
                            lemma_split_nodot(label);
                            assert(join_part(label, p.text) == label + seq![NAME_DOT] + p.text);
                            assert(split_labels(join_part(label, p.text)) =~= seq![label]
                                + split_labels(p.text));
                        }
                    },
                    Err(e) => {},
                }
            }
        }
    }
}

impl DomainName {
    /// Decodes a name at `offset`: reads length-prefixed labels, follows
    /// compression pointers (up to the hop limit), and returns the name with
    /// the count of bytes it occupies at the original read position.
    pub fn deserialize(bytes: &[u8], offset: usize) -> (r: Result<
        (usize, DomainName),
        DeserializationError,
    >)
        ensures
            match r {
                Ok((n, dn)) => spec_parse_name(bytes@, offset as int) == Ok::<
                    NameParse,
                    DeserializationError,
                >(NameParse { text: dn@, consumed: n as int }) && valid_name(dn@) && offset + n
                    <= bytes@.len(),
                Err(e) => spec_parse_name(bytes@, offset as int) == Err::<
                    NameParse,
                    DeserializationError,
                >(e),
            },
    {
        let n_total = bytes.len();
        let ghost limit: nat = POINTER_HOP_LIMIT as nat;
        let mut acc: Vec<u8> = Vec::new();
        let mut cur: usize = offset;
        let mut hops: u32 = POINTER_HOP_LIMIT;
        let mut seen_ptr: bool = false;
        let mut fixed: usize = 0;
        proof {
            match parse_labels(bytes@, offset as int, limit) {
                Ok(p) => {
                    assert(p =~= NameParse { text: join_part(acc@, p.text), consumed: p.consumed });
                },
                Err(_) => {},
            }
        }
        loop
            invariant
                n_total == bytes@.len(),
                limit == POINTER_HOP_LIMIT as nat,
                hops <= POINTER_HOP_LIMIT,
                seen_ptr ==> offset + fixed <= n_total,
                !seen_ptr ==> offset <= cur && hops == POINTER_HOP_LIMIT,
                match parse_labels(bytes@, cur as int, hops as nat) {
                    Ok(p) => parse_labels(bytes@, offset as int, limit) == Ok::<
                        NameParse,
                        DeserializationError,
                    >(
                        NameParse {
                            text: join_part(acc@, p.text),
                            consumed: if seen_ptr {
                                fixed as int
                            } else {
                                cur - offset + p.consumed
                            },
                        },
                    ),
                    Err(e) => parse_labels(bytes@, offset as int, limit) == Err::<
                        NameParse,
                        DeserializationError,
                    >(e),
                },
            decreases hops, n_total - cur,
        {
            if cur >= n_total {
                return Err(DeserializationError::BufferOverflow);
            }
            let b = bytes[cur];
            if b == 0 {
                let total: usize = if seen_ptr {
                    fixed
                } else {
                    cur - offset + 1
                };
                proof {
                    assert(join_part(acc@, Seq::<u8>::empty()) =~= acc@);
                    assert(parse_labels(bytes@, offset as int, limit) == Ok::<
                        NameParse,
                        DeserializationError,
                    >(NameParse { text: acc@, consumed: total as int }));
                }
                if acc.len() == 0 || acc.len() > MAX_NAME_LEN {
                    return Err(DeserializationError::InvalidData(Field::Name, 0));
                }
                proof {
                    lemma_parse_text_valid(bytes@, offset as int, limit);
                }
                return Ok((total, DomainName { text: acc }));
            } else if b >= 0xC0 {
                if cur + 1 >= n_total {
                    return Err(DeserializationError::BufferOverflow);
                }
                let target: usize = (b - 0xC0) as usize * 256 + bytes[cur + 1] as usize;
                if hops == 0 {
                    return Err(
                        DeserializationError::InvalidData(Field::Pointer, target as u16),
                    );
                }
                if !seen_ptr {
                    seen_ptr = true;
                    fixed = cur - offset + 2;
                }
                hops = hops - 1;
                cur = target;
            } else if b > 63 {
                return Err(DeserializationError::InvalidData(Field::Name, b as u16));
            } else {
                let blen = b as usize;
                if blen > n_total - (cur + 1) {
                    return Err(DeserializationError::BufferOverflow);
                }
                if !check_label(bytes, cur + 1, blen) {
                    return Err(DeserializationError::InvalidData(Field::Name, b as u16));
                }
                let ghost old_acc = acc@;
                let ghost label = bytes@.subrange(cur + 1, cur + 1 + blen);
                if acc.len() > 0 {
                    acc.push(NAME_DOT);
                }
                let ghost sep = acc@;
                let mut k: usize = 0;
                while k < blen
                    invariant
                        n_total == bytes@.len(),
                        cur + 1 + blen <= n_total,
                        0 <= k <= blen,
                        label == bytes@.subrange(cur + 1, cur + 1 + blen),
                        acc@ == sep + bytes@.subrange(cur + 1, cur + 1 + k),
                    decreases blen - k,
                {
                    proof {
                        assert(sep + bytes@.subrange(cur + 1, cur + 1 + k) + seq![
                            bytes@[cur + 1 + k],
                        ] =~= sep + bytes@.subrange(cur + 1, cur + 1 + (k + 1)));
                    }
                    acc.push(bytes[cur + 1 + k]);
                    k += 1;
                }
                proof {
                    assert(acc@ =~= join_part(old_acc, label));
                    match parse_labels(bytes@, cur + 1 + blen, hops as nat) {
                        Ok(p) => {
                            lemma_join_part_assoc(old_acc, label, p.text);
                            assert(parse_labels(bytes@, cur as int, hops as nat) == Ok::<
                                NameParse,
                                DeserializationError,
                            >(
                                NameParse {
                                    text: join_part(label, p.text),
                                    consumed: 1 + b + p.consumed,
                                },
                            ));
                            assert(NameParse {
                                text: join_part(old_acc, join_part(label, p.text)),
                                consumed: if seen_ptr {
                                    fixed as int
                                } else {
                                    cur - offset + (1 + b + p.consumed)
                                },
                            } =~= NameParse {
                                text: join_part(acc@, p.text),
                                consumed: if seen_ptr {
                                    fixed as int
                                } else {
                                    (cur + 1 + blen) - offset + p.consumed
                                },
                            });
                        },
                        Err(_) => {},
                    }
                }
                cur = cur + 1 + blen;
            }
        }
    }
}

/// Appending a label to a label sequence appends its length byte and octets
/// to the wire form.
proof fn lemma_labels_wire_push(ls: Seq<Seq<u8>>, l: Seq<u8>)
    ensures
        labels_wire(ls + seq![l]) =~~= labels_wire(ls) + seq![l.len() as u8] + l,
    decreases ls.len(),
{
    if ls.len() == 0 {
        assert(ls + seq![l] =~= seq![l]);
        assert((ls + seq![l]).skip(1) =~= Seq::<Seq<u8>>::empty());
        assert(labels_wire(Seq::<Seq<u8>>::empty()) =~= Seq::<u8>::empty());
        assert(labels_wire(ls + seq![l]) =~= seq![l.len() as u8] + l);
        assert(labels_wire(ls) =~= Seq::<u8>::empty());
    } else {
        lemma_labels_wire_push(ls.skip(1), l);
        assert((ls + seq![l]).skip(1) =~= ls.skip(1) + seq![l]);
        assert((ls + seq![l])[0] == ls[0]);
        assert(labels_wire(ls + seq![l]) =~= seq![ls[0].len() as u8] + ls[0] + (labels_wire(
            ls.skip(1),
        ) + seq![l.len() as u8] + l));
    }
}

/// A dot-joined sequence of nonempty labels is itself nonempty.
proof fn lemma_join_labels_nonempty(ls: Seq<Seq<u8>>)
    requires
        ls.len() >= 1,
        forall|i: int| 0 <= i < ls.len() ==> #[trigger] ls[i].len() >= 1,
    ensures
        join_labels(ls).len() >= 1,
    decreases ls.len(),
{
    if ls.len() > 1 {
        lemma_join_labels_nonempty(ls.skip(1));
    }
}

/// Joining a label sequence joins its first label onto the join of the rest.
proof fn lemma_join_labels_first(ls: Seq<Seq<u8>>)
    requires
        ls.len() >= 1,
        forall|i: int| 0 <= i < ls.len() ==> #[trigger] ls[i].len() >= 1,
    ensures
        join_labels(ls) == join_part(ls[0], join_labels(ls.skip(1))),
{
    if ls.len() == 1 {
        assert(join_labels(ls.skip(1)) =~= Seq::<u8>::empty());
    } else {
        assert(forall|i: int|
            0 <= i < ls.skip(1).len() ==> #[trigger] ls.skip(1)[i].len() >= 1);
        lemma_join_labels_nonempty(ls.skip(1));
    }
}

/// A buffer that holds the wire form of well-formed labels at `pos` parses,
/// with any hop budget, to their dot-joined text, consuming the wire form's
/// length including the terminator.
proof fn lemma_labels_wire_parse(buf: Seq<u8>, pos: int, ls: Seq<Seq<u8>>, hops: nat)
    requires
        forall|i: int| 0 <= i < ls.len() ==> valid_label(#[trigger] ls[i]),
        0 <= pos,
        pos + labels_wire(ls).len() + 1 <= buf.len(),
        buf.subrange(pos, pos + labels_wire(ls).len() + 1) == labels_wire(ls) + seq![0u8],
    ensures
        parse_labels(buf, pos, hops) == Ok::<NameParse, DeserializationError>(
            NameParse { text: join_labels(ls), consumed: labels_wire(ls).len() as int + 1 },
        ),
    decreases ls.len(),
{
    let wire = labels_wire(ls) + seq![0u8];
    if ls.len() == 0 {
        assert(wire[0] == 0u8);
        assert(buf[pos] == wire[0]);
        assert(parse_labels(buf, pos, hops) == Ok::<NameParse, DeserializationError>(
            NameParse { text: Seq::empty(), consumed: 1 },
        ));
        assert(NameParse { text: Seq::<u8>::empty(), consumed: 1 } =~= NameParse {
            text: join_labels(ls),
            consumed: labels_wire(ls).len() as int + 1,
        });
    } else {
        let l0 = ls[0];
        let rest = ls.skip(1);
        let b = buf[pos];
        assert(forall|i: int| 0 <= i < wire.len() ==> #[trigger] buf[pos + i] == wire[i]) by {
            assert(forall|i: int|
                0 <= i < wire.len() ==> #[trigger] buf.subrange(pos, pos + wire.len() as int)[i]
                    == buf[pos + i]);
        }
        assert(labels_wire(ls) =~= seq![l0.len() as u8] + l0 + labels_wire(rest));
        assert(wire[0] == l0.len() as u8);
        assert(buf[pos] == wire[0]);
        assert(1 <= l0.len() <= 63);
        assert(b == l0.len() as u8);
        assert(b != 0 && b < 0xC0 && b <= 63);
        assert(forall|i: int| 0 <= i < l0.len() ==> wire[1 + i] == #[trigger] l0[i]);
        assert(buf.subrange(pos + 1, pos + 1 + b) =~= l0);
        let pos2 = pos + 1 + l0.len() as int;
        assert(forall|i: int|
            0 <= i < labels_wire(rest).len() + 1 ==> wire[1 + l0.len() + i] == #[trigger] (
            labels_wire(rest) + seq![0u8])[i]);
        assert(buf.subrange(pos2, pos2 + labels_wire(rest).len() + 1) =~= labels_wire(rest)
            + seq![0u8]);
        lemma_labels_wire_parse(buf, pos2, rest, hops);
        lemma_join_labels_first(ls);
        assert(NameParse {
            text: join_part(l0, join_labels(rest)),
            consumed: 1 + b + (labels_wire(rest).len() + 1),
        } =~= NameParse { text: join_labels(ls), consumed: labels_wire(ls).len() as int + 1 });
    }
}

/// A buffer that holds the wire form of a grammar-valid name at `pos`
/// decodes to exactly that name, consuming exactly the wire form's length.
pub proof fn lemma_name_wire_parse(buf: Seq<u8>, pos: int, t: Seq<u8>)
    requires
        valid_name(t),
        t.len() >= 1,
        0 <= pos,
        pos + name_wire(t).len() <= buf.len(),
        buf.subrange(pos, pos + name_wire(t).len()) == name_wire(t),
    ensures
        spec_parse_name(buf, pos) == Ok::<NameParse, DeserializationError>(
            NameParse { text: t, consumed: name_wire(t).len() as int },
        ),
{
    let ls = split_labels(t);
    lemma_join_split_id(t);
    lemma_labels_wire_parse(buf, pos, ls, POINTER_HOP_LIMIT as nat);
    assert(NameParse { text: join_labels(ls), consumed: labels_wire(ls).len() as int + 1 } =~= NameParse {
        text: t,
        consumed: name_wire(t).len() as int,
    });
}

/// Compression: when a buffer holds the wire form of a grammar-valid name,
/// a two-byte pointer anywhere else in the buffer whose masked offset is the
/// name's position decodes to the identical logical name, and its
/// consumed-byte count is exactly 2.
pub proof fn lemma_pointer_compression(buf: Seq<u8>, name_pos: int, ptr_pos: int, t: Seq<u8>)
    requires
        valid_name(t),
        t.len() >= 1,
        0 <= name_pos < 0x4000,
        name_pos + name_wire(t).len() <= buf.len(),
        buf.subrange(name_pos, name_pos + name_wire(t).len()) == name_wire(t),
        0 <= ptr_pos,
        ptr_pos + 2 <= buf.len(),
        buf[ptr_pos] == (0xC0 + name_pos / 256) as u8,
        buf[ptr_pos + 1] == (name_pos % 256) as u8,
    ensures
        spec_parse_name(buf, name_pos) == Ok::<NameParse, DeserializationError>(
            NameParse { text: t, consumed: name_wire(t).len() as int },
        ),
        spec_parse_name(buf, ptr_pos) == Ok::<NameParse, DeserializationError>(
            NameParse { text: t, consumed: 2 },
        ),
{
    lemma_name_wire_parse(buf, name_pos, t);
    let ls = split_labels(t);
    lemma_join_split_id(t);
    lemma_labels_wire_parse(buf, name_pos, ls, (POINTER_HOP_LIMIT - 1) as nat);
    let b = buf[ptr_pos];
    assert(b >= 0xC0);
    assert((b - 0xC0) * 256 + buf[ptr_pos + 1] == name_pos);
    assert(NameParse { text: join_labels(ls), consumed: 2 } =~= NameParse {
        text: t,
        consumed: 2,
    });
}

} // verus!

