//! Decoding of the DNS question name (qname) from a DNS message payload.
//!
//! A DNS message starts with a fixed 12-byte header; the question name
//! follows as a sequence of length-prefixed labels terminated by a
//! zero-length label. The decoder joins the labels with `'.'` into a
//! bounded, validated, human-readable name. Name-compression pointers
//! (a length byte with its top two bits set) are deliberately rejected,
//! never interpreted; label bytes must be printable ASCII.

use vstd::prelude::*;

verus! {

/// Why a qname could not be decoded.
#[derive(Clone, Copy, Debug, PartialEq, Eq, Structural)]
pub enum DnsDecodeError {
    /// A length byte or a label would be read past the end of the payload.
    OutOfBounds,
    /// The decoded name would not fit in the caller-chosen output capacity.
    BufferOverflow,
    /// A name-compression pointer (length byte >= 0xC0), or a label byte
    /// that is not printable ASCII.
    InvalidLabel,
}

impl DnsDecodeError {
    /// A short human-readable description of the error.
    pub fn message(&self) -> (s: &'static str)
        ensures
            s@ == match self {
                DnsDecodeError::OutOfBounds => "Invalid packet: out of bounds"@,
                DnsDecodeError::BufferOverflow => "Buffer overflow"@,
                DnsDecodeError::InvalidLabel => "Invalid or unsupported label"@,
            },
    {
        match self {
            DnsDecodeError::OutOfBounds => "Invalid packet: out of bounds",
            DnsDecodeError::BufferOverflow => "Buffer overflow",
            DnsDecodeError::InvalidLabel => "Invalid or unsupported label",
        }
    }
}

/// The separator written between labels in the decoded name.
pub const LABEL_SEPARATOR: u8 = 46;

/// The smallest length byte that denotes a DNS name-compression pointer:
/// both top bits set.
pub const COMPRESSION_MASK: u8 = 0xc0;

/// The number of bytes in the fixed DNS message header that precedes the
/// question section.
pub const DNS_HEADER_LEN: usize = 12;

/// A label byte is acceptable text: printable, non-space ASCII.
pub open spec fn text_byte(b: u8) -> bool {
    0x21 <= b <= 0x7e
}

/// Every byte of a label is acceptable text.
pub open spec fn label_text_ok(l: Seq<u8>) -> bool {
    forall|j: int| 0 <= j < l.len() ==> text_byte(#[trigger] l[j])
}

/// Every byte of a decoded name is acceptable text or the label separator.
pub open spec fn name_text_ok(name: Seq<u8>) -> bool {
    forall|j: int| 0 <= j < name.len() ==> (text_byte(#[trigger] name[j]) || name[j] == LABEL_SEPARATOR)
}

/// One step per label: what decoding yields from position `i` of `payload`
/// with the name decoded so far in `acc`, against output capacity `cap`.
///
/// The checks fire in this order for each label: a missing length byte is
/// out of bounds; a zero length ends the name; a length with both top bits
/// set is a compression pointer and invalid; a label that would not fit in
/// the remaining capacity (plus one separator byte when a label was already
/// emitted) overflows; label bytes past the payload end are out of bounds;
/// a non-text label byte is invalid. Otherwise the label is appended and
/// decoding continues after it.
pub open spec fn decode_labels(payload: Seq<u8>, i: int, acc: Seq<u8>, cap: int) -> Result<
    Seq<u8>,
    DnsDecodeError,
>
    decreases payload.len() - i,
{
    if i < 0 || i >= payload.len() {
        Err(DnsDecodeError::OutOfBounds)
    } else {
        let len = payload[i] as int;
        if len == 0 {
            Ok(acc)
        } else if len >= COMPRESSION_MASK {
            Err(DnsDecodeError::InvalidLabel)
        } else {
            let need = if acc.len() == 0 { len } else { len + 1 };
            if acc.len() + need > cap {
                Err(DnsDecodeError::BufferOverflow)
            } else if i + 1 + len > payload.len() {
                Err(DnsDecodeError::OutOfBounds)
            } else if !label_text_ok(payload.subrange(i + 1, i + 1 + len)) {
                Err(DnsDecodeError::InvalidLabel)
            } else {
                decode_labels(
                    payload,
                    i + 1 + len,
                    (if acc.len() == 0 {
                        acc
                    } else {
                        acc.push(LABEL_SEPARATOR)
                    }) + payload.subrange(i + 1, i + 1 + len),
                    cap,
                )
            }
        }
    }
}

/// What `decode_qname` returns: the dotted question name of the DNS message
/// `payload`, decoded into at most `cap` bytes, or the first error met.
pub open spec fn decode_qname_spec(payload: Seq<u8>, cap: int) -> Result<Seq<u8>, DnsDecodeError> {
    decode_labels(payload, DNS_HEADER_LEN as int, Seq::empty(), cap)
}

/// Decode the question name of the DNS message `payload` into a fresh
/// buffer of at most `capacity` bytes.
///
/// On success the returned bytes are the labels joined by `'.'`, validated
/// as printable ASCII. On any error nothing is returned, so no caller ever
/// sees a partially decoded name.
#[verifier::loop_isolation(false)]
pub fn decode_qname(payload: &[u8], capacity: usize) -> (r: Result<Vec<u8>, DnsDecodeError>)
    ensures
        match r {
            Ok(name) => decode_qname_spec(payload@, capacity as int) == Ok::<
                Seq<u8>,
                DnsDecodeError,
            >(name@),
            Err(e) => decode_qname_spec(payload@, capacity as int) == Err::<
                Seq<u8>,
                DnsDecodeError,
            >(e),
        },
        r matches Ok(name) ==> name@.len() <= capacity && name_text_ok(name@),
{
    let n = payload.len();
    let mut out: Vec<u8> = Vec::new();
    let mut index: usize = DNS_HEADER_LEN;
    loop
        invariant
            n == payload@.len(),
            out@.len() <= capacity,
            name_text_ok(out@),
            decode_labels(payload@, index as int, out@, capacity as int) == decode_qname_spec(
                payload@,
                capacity as int,
            ),
        decreases payload@.len() - index,
    {
        if index >= n {
            return Err(DnsDecodeError::OutOfBounds);
        }
        let len_byte = payload[index];
        if len_byte == 0 {
            return Ok(out);
        }
        if len_byte >= COMPRESSION_MASK {
            return Err(DnsDecodeError::InvalidLabel);
        }
        let len = len_byte as usize;
        let need = if out.len() == 0 {
            len
        } else {
            len + 1
        };
        if need > capacity - out.len() {
            return Err(DnsDecodeError::BufferOverflow);
        }
        if len > n - (index + 1) {
            return Err(DnsDecodeError::OutOfBounds);
        }
        let start = index + 1;
        let mut j: usize = 0;
        while j < len
            invariant
                n == payload@.len(),
                start + len <= n,
                j <= len,
                forall|k: int| 0 <= k < j ==> text_byte(#[trigger] payload@[start + k]),
            decreases len - j,
        {
            if !(0x21 <= payload[start + j] && payload[start + j] <= 0x7e) {
                proof {
                    let l = payload@.subrange(start as int, start + len);
                    assert(l[j as int] == payload@[start + j]);
                    assert(!label_text_ok(l));
                }
                return Err(DnsDecodeError::InvalidLabel);
            }
            j += 1;
        }
        proof {
            let l = payload@.subrange(start as int, start + len);
            assert forall|k: int| 0 <= k < l.len() implies text_byte(#[trigger] l[k]) by {
                assert(l[k] == payload@[start + k]);
            }
        }
        let ghost out_before: Seq<u8> = out@;
        if out.len() > 0 {
            out.push(LABEL_SEPARATOR);
        }
        let ghost out_sep: Seq<u8> = out@;
        let mut c: usize = 0;
        while c < len
            invariant
                n == payload@.len(),
                start + len <= n,
                c <= len,
                out@ == out_sep + payload@.subrange(start as int, start + c),
                label_text_ok(payload@.subrange(start as int, start + len)),
            decreases len - c,
        {
            proof {
                let l = payload@.subrange(start as int, start + len);
                assert(l[c as int] == payload@[start + c]);
                assert(out_sep + payload@.subrange(start as int, start + c + 1) =~= (out_sep
                    + payload@.subrange(start as int, start + c)).push(payload@[start + c]));
            }
            out.push(payload[start + c]);
            c += 1;
        }
        proof {
            let l = payload@.subrange(start as int, start + len);
            assert(out@ =~= (if out_before.len() == 0 {
                out_before
            } else {
                out_before.push(LABEL_SEPARATOR)
            }) + l);
            assert(decode_labels(payload@, index as int, out_before, capacity as int)
                == decode_labels(payload@, (start + len) as int, out@, capacity as int));
            assert forall|k: int| 0 <= k < out@.len() implies (text_byte(#[trigger] out@[k])
                || out@[k] == LABEL_SEPARATOR) by {
                if k < out_sep.len() {
                } else {
                    assert(out@[k] == l[k - out_sep.len()]);
                }
            }
        }
        index = start + len;
    }
}

/// The wire encoding of a question name with the given labels: each label
/// preceded by its length byte, the whole terminated by a zero byte.
pub open spec fn encode_labels(labels: Seq<Seq<u8>>) -> Seq<u8>
    decreases labels.len(),
{
    if labels.len() == 0 {
        seq![0u8]
    } else {
        seq![labels[0].len() as u8] + labels[0] + encode_labels(labels.subrange(1, labels.len() as int))
    }
}

/// The name decoded so far in `acc`, extended by the remaining `labels`,
/// each joined on with a single separator.
pub open spec fn joined(acc: Seq<u8>, labels: Seq<Seq<u8>>) -> Seq<u8>
    decreases labels.len(),
{
    if labels.len() == 0 {
        acc
    } else {
        joined(
            if acc.len() == 0 {
                labels[0]
            } else {
                acc + seq![LABEL_SEPARATOR] + labels[0]
            },
            labels.subrange(1, labels.len() as int),
        )
    }
}

/// The dotted name formed by the given labels.
pub open spec fn dotted_name(labels: Seq<Seq<u8>>) -> Seq<u8> {
    joined(Seq::empty(), labels)
}

/// A well-formed label sequence: each label is non-empty, short enough that
/// its length byte is not a compression pointer, and printable ASCII.
pub open spec fn labels_wf(labels: Seq<Seq<u8>>) -> bool {
    forall|k: int|
        0 <= k < labels.len() ==> {
            &&& 1 <= (#[trigger] labels[k]).len() < COMPRESSION_MASK
            &&& label_text_ok(labels[k])
        }
}

proof fn lemma_joined_len(acc: Seq<u8>, labels: Seq<Seq<u8>>)
    ensures
        joined(acc, labels).len() >= acc.len(),
    decreases labels.len(),
{
    if labels.len() > 0 {
        let acc2 = if acc.len() == 0 {
            labels[0]
        } else {
            acc + seq![LABEL_SEPARATOR] + labels[0]
        };
        lemma_joined_len(acc2, labels.subrange(1, labels.len() as int));
    }
}

proof fn lemma_decode_encoded_tail(
    payload: Seq<u8>,
    i: int,
    acc: Seq<u8>,
    labels: Seq<Seq<u8>>,
    cap: int,
)
    requires
        labels_wf(labels),
        0 <= i,
        i + encode_labels(labels).len() <= payload.len(),
        payload.subrange(i, i + encode_labels(labels).len() as int) == encode_labels(labels),
        joined(acc, labels).len() <= cap,
    ensures
        decode_labels(payload, i, acc, cap) == Ok::<Seq<u8>, DnsDecodeError>(joined(acc, labels)),
    decreases labels.len(),
{
    let enc = encode_labels(labels);
    if labels.len() == 0 {
        assert(payload[i] == payload.subrange(i, i + 1)[0]);
        assert(payload[i] == 0);
    } else {
        let l0 = labels[0];
        let rest = labels.subrange(1, labels.len() as int);
        let enc_rest = encode_labels(rest);
        let ll = l0.len() as int;
        assert(enc == seq![l0.len() as u8] + l0 + enc_rest);
        assert(enc.len() == 1 + ll + enc_rest.len());
        assert forall|k: int| 0 <= k < enc.len() implies payload[i + k] == enc[k] by {
            assert(payload.subrange(i, i + enc.len() as int)[k] == payload[i + k]);
        }
        assert(enc[0] == l0.len() as u8);
        assert(payload[i] == l0.len() as u8);
        assert(1 <= ll < COMPRESSION_MASK);
        assert(payload[i] as int == ll);
        let acc2 = (if acc.len() == 0 {
            acc
        } else {
            acc.push(LABEL_SEPARATOR)
        }) + payload.subrange(i + 1, i + 1 + ll);
        let acc2j = if acc.len() == 0 {
            l0
        } else {
            acc + seq![LABEL_SEPARATOR] + l0
        };
        assert(payload.subrange(i + 1, i + 1 + ll) =~= l0) by {
            assert forall|k: int| 0 <= k < ll implies payload.subrange(i + 1, i + 1 + ll)[k]
                == l0[k] by {
                assert(payload[i + (1 + k)] == enc[1 + k]);
                assert(enc[1 + k] == (seq![l0.len() as u8] + l0)[1 + k]);
            }
        }
        assert(acc2 =~= acc2j);
        assert(joined(acc, labels) == joined(acc2j, rest));
        lemma_joined_len(acc2j, rest);
        let need = if acc.len() == 0 {
            ll
        } else {
            ll + 1
        };
        assert(acc.len() + need == acc2j.len());
        assert(acc.len() + need <= cap);
        assert(label_text_ok(payload.subrange(i + 1, i + 1 + ll)));
        let i2 = i + 1 + ll;
        assert forall|k: int| 0 <= k < rest.len() implies {
            &&& 1 <= (#[trigger] rest[k]).len() < COMPRESSION_MASK
            &&& label_text_ok(rest[k])
        } by {
            assert(rest[k] == labels[k + 1]);
        }
        assert(payload.subrange(i2, i2 + enc_rest.len() as int) =~= enc_rest) by {
            assert forall|k: int| 0 <= k < enc_rest.len() implies payload.subrange(
                i2,
                i2 + enc_rest.len() as int,
            )[k] == enc_rest[k] by {
                assert(payload[i + (1 + ll + k)] == enc[1 + ll + k]);
                assert(enc[1 + ll + k] == enc_rest[k]);
            }
        }
        lemma_decode_encoded_tail(payload, i2, acc2j, rest, cap);
        assert(decode_labels(payload, i, acc, cap) == decode_labels(payload, i2, acc2, cap));
    }
}

/// Law: a well-formed question name round-trips. If `payload` carries, right
/// after the fixed DNS header, the wire encoding of well-formed `labels`,
/// and the dotted name fits the output capacity, decoding succeeds and
/// yields exactly the labels joined by `'.'`.
pub proof fn lemma_decode_well_formed(payload: Seq<u8>, labels: Seq<Seq<u8>>, cap: int)
    requires
        labels_wf(labels),
        DNS_HEADER_LEN + encode_labels(labels).len() <= payload.len(),
        payload.subrange(
            DNS_HEADER_LEN as int,
            DNS_HEADER_LEN + encode_labels(labels).len() as int,
        ) == encode_labels(labels),
        dotted_name(labels).len() <= cap,
    ensures
        decode_qname_spec(payload, cap) == Ok::<Seq<u8>, DnsDecodeError>(dotted_name(labels)),
{
    lemma_decode_encoded_tail(payload, DNS_HEADER_LEN as int, Seq::empty(), labels, cap);
}

/// Law: a compression pointer is rejected, never mis-decoded. If the first
/// length byte has its top two bits set, decoding fails with the
/// invalid-label error and produces no name.
pub proof fn lemma_decode_rejects_compression(payload: Seq<u8>, cap: int)
    requires
        DNS_HEADER_LEN < payload.len(),
        payload[DNS_HEADER_LEN as int] >= COMPRESSION_MASK,
    ensures
        decode_qname_spec(payload, cap) == Err::<Seq<u8>, DnsDecodeError>(
            DnsDecodeError::InvalidLabel,
        ),
{
}

/// Law: a declared label length that would read past the end of the payload
/// fails with the out-of-bounds error. This covers a payload too short to
/// hold the DNS header and first length byte, and a first label whose
/// declared length (which fits the output capacity) overruns the payload.
pub proof fn lemma_decode_out_of_bounds(payload: Seq<u8>, cap: int)
    requires
        payload.len() <= DNS_HEADER_LEN || {
            &&& 1 <= payload[DNS_HEADER_LEN as int] < COMPRESSION_MASK
            &&& payload[DNS_HEADER_LEN as int] <= cap
            &&& DNS_HEADER_LEN + 1 + payload[DNS_HEADER_LEN as int] > payload.len()
        },
    ensures
        decode_qname_spec(payload, cap) == Err::<Seq<u8>, DnsDecodeError>(
            DnsDecodeError::OutOfBounds,
        ),
{
}

proof fn lemma_decode_overflow_tail(
    payload: Seq<u8>,
    i: int,
    acc: Seq<u8>,
    labels: Seq<Seq<u8>>,
    cap: int,
)
    requires
        labels_wf(labels),
        0 <= i,
        i + encode_labels(labels).len() <= payload.len(),
        payload.subrange(i, i + encode_labels(labels).len() as int) == encode_labels(labels),
        acc.len() <= cap,
        joined(acc, labels).len() > cap,
    ensures
        decode_labels(payload, i, acc, cap) == Err::<Seq<u8>, DnsDecodeError>(
            DnsDecodeError::BufferOverflow,
        ),
    decreases labels.len(),
{
    let enc = encode_labels(labels);
    if labels.len() == 0 {
        assert(joined(acc, labels) == acc);
        assert(false);
    } else {
        let l0 = labels[0];
        let rest = labels.subrange(1, labels.len() as int);
        let enc_rest = encode_labels(rest);
        let ll = l0.len() as int;
        assert(enc == seq![l0.len() as u8] + l0 + enc_rest);
        assert forall|k: int| 0 <= k < enc.len() implies payload[i + k] == enc[k] by {
            assert(payload.subrange(i, i + enc.len() as int)[k] == payload[i + k]);
        }
        assert(enc[0] == l0.len() as u8);
        assert(payload[i] as int == ll);
        let need = if acc.len() == 0 {
            ll
        } else {
            ll + 1
        };
        let acc2j = if acc.len() == 0 {
            l0
        } else {
            acc + seq![LABEL_SEPARATOR] + l0
        };
        assert(joined(acc, labels) == joined(acc2j, rest));
        if acc.len() + need > cap {
            // the decoder reports the overflow at this very label
        } else {
            let acc2 = (if acc.len() == 0 {
                acc
            } else {
                acc.push(LABEL_SEPARATOR)
            }) + payload.subrange(i + 1, i + 1 + ll);
            assert(payload.subrange(i + 1, i + 1 + ll) =~= l0) by {
                assert forall|k: int| 0 <= k < ll implies payload.subrange(i + 1, i + 1 + ll)[k]
                    == l0[k] by {
                    assert(payload[i + (1 + k)] == enc[1 + k]);
                    assert(enc[1 + k] == (seq![l0.len() as u8] + l0)[1 + k]);
                }
            }
            assert(acc2 =~= acc2j);
            assert(label_text_ok(payload.subrange(i + 1, i + 1 + ll)));
            let i2 = i + 1 + ll;
            assert forall|k: int| 0 <= k < rest.len() implies {
                &&& 1 <= (#[trigger] rest[k]).len() < COMPRESSION_MASK
                &&& label_text_ok(rest[k])
            } by {
                assert(rest[k] == labels[k + 1]);
            }
            assert(payload.subrange(i2, i2 + enc_rest.len() as int) =~= enc_rest) by {
                assert forall|k: int| 0 <= k < enc_rest.len() implies payload.subrange(
                    i2,
                    i2 + enc_rest.len() as int,
                )[k] == enc_rest[k] by {
                    assert(payload[i + (1 + ll + k)] == enc[1 + ll + k]);
                    assert(enc[1 + ll + k] == enc_rest[k]);
                }
            }
            lemma_decode_overflow_tail(payload, i2, acc2j, rest, cap);
            assert(decode_labels(payload, i, acc, cap) == decode_labels(payload, i2, acc2, cap));
        }
    }
}

/// Law: an output capacity smaller than the encoded name requires fails
/// with the buffer-overflow error — and `decode_qname` then returns no
/// bytes at all, so no partial name is ever observed.
pub proof fn lemma_decode_buffer_overflow(payload: Seq<u8>, labels: Seq<Seq<u8>>, cap: int)
    requires
        labels_wf(labels),
        0 <= cap,
        DNS_HEADER_LEN + encode_labels(labels).len() <= payload.len(),
        payload.subrange(
            DNS_HEADER_LEN as int,
            DNS_HEADER_LEN + encode_labels(labels).len() as int,
        ) == encode_labels(labels),
        dotted_name(labels).len() > cap,
    ensures
        decode_qname_spec(payload, cap) == Err::<Seq<u8>, DnsDecodeError>(
            DnsDecodeError::BufferOverflow,
        ),
{
    lemma_decode_overflow_tail(payload, DNS_HEADER_LEN as int, Seq::empty(), labels, cap);
}

} // verus!
