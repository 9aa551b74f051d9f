//! Whole-document persistence for the two registries: each save serializes
//! the entire in-memory directory, each load parses the entire document or
//! fails, and parsing a saved document is proved to give the directory back.
//! Reading and writing the backing file happens outside this crate; the
//! functions here go from documents as bytes to registries and back.

use vstd::prelude::*;
use vstd::utf8::encode_utf8;
use crate::codec::{
    enc_num, enc_str, enc_opt_str, enc_opt_num, at, lemma_at_split, spec_parse_num,
    spec_parse_str, spec_parse_opt_str, spec_parse_opt_num, lemma_parse_num_of_enc,
    lemma_parse_str_of_enc, lemma_parse_opt_str_of_enc, lemma_parse_opt_num_of_enc,
    encode_num_into, encode_str_into, encode_opt_str_into, encode_opt_num_into, parse_num,
    parse_str, parse_opt_str, parse_opt_num,
};
use crate::error::PoofError;
use crate::hosts::{
    Host, HostView, HostConfig, HostKey, HostKeyView, KeyConfig, KeyConfigView, has_alias,
    has_public_key, has_key_name, find_public_key,
};

verus! {

/// One metadata entry: two string fields.
pub open spec fn enc_meta_entry(e: (Seq<char>, Seq<char>)) -> Seq<u8> {
    enc_str(e.0) + enc_str(e.1)
}

/// A metadata table: its entries one after the other.
pub open spec fn enc_meta(m: Seq<(Seq<char>, Seq<char>)>) -> Seq<u8>
    decreases m.len(),
{
    if m.len() == 0 {
        Seq::empty()
    } else {
        enc_meta_entry(m[0]) + enc_meta(m.skip(1))
    }
}

/// One host record: its fields, then its metadata table with a count line.
pub open spec fn enc_host(h: HostView) -> Seq<u8> {
    enc_str(h.alias) + enc_str(h.public_key) + enc_opt_str(h.description) + enc_num(
        h.added_at as nat,
    ) + enc_opt_num(h.last_seen) + enc_num(h.metadata.len()) + enc_meta(h.metadata)
}

/// A host table: its records one after the other.
pub open spec fn enc_host_seq(s: Seq<HostView>) -> Seq<u8>
    decreases s.len(),
{
    if s.len() == 0 {
        Seq::empty()
    } else {
        enc_host(s[0]) + enc_host_seq(s.skip(1))
    }
}

/// The whole host document: a count line, then that many records.
pub open spec fn enc_hosts(s: Seq<HostView>) -> Seq<u8> {
    enc_num(s.len()) + enc_host_seq(s)
}

/// Whether a host's fields are small enough to frame; true of every record a
/// process can hold.
pub open spec fn host_bounded(h: HostView) -> bool {
    &&& encode_utf8(h.alias).len() <= u64::MAX
    &&& encode_utf8(h.public_key).len() <= u64::MAX
    &&& (h.description matches Some(d) ==> encode_utf8(d).len() <= u64::MAX)
    &&& h.metadata.len() <= u64::MAX
    &&& forall|i: int|
        0 <= i < h.metadata.len() ==> encode_utf8(#[trigger] h.metadata[i].0).len() <= u64::MAX
            && encode_utf8(h.metadata[i].1).len() <= u64::MAX
}

pub open spec fn hosts_bounded(s: Seq<HostView>) -> bool {
    &&& s.len() <= u64::MAX
    &&& forall|i: int| 0 <= i < s.len() ==> host_bounded(#[trigger] s[i])
}

proof fn lemma_enc_meta_push(m: Seq<(Seq<char>, Seq<char>)>, e: (Seq<char>, Seq<char>))
    ensures
        enc_meta(m.push(e)) == enc_meta(m) + enc_meta_entry(e),
    decreases m.len(),
{
    let p = m.push(e);
    if m.len() == 0 {
        assert(p[0] == e);
        assert(p.skip(1) =~= Seq::<(Seq<char>, Seq<char>)>::empty());
        assert(enc_meta(p) == enc_meta_entry(p[0]) + enc_meta(p.skip(1)));
        assert(enc_meta(p.skip(1)) == Seq::<u8>::empty());
        assert(enc_meta(m) == Seq::<u8>::empty());
        assert(enc_meta(p) =~= enc_meta(m) + enc_meta_entry(e));
    } else {
        assert(p.skip(1) =~= m.skip(1).push(e));
        assert(p[0] == m[0]);
        lemma_enc_meta_push(m.skip(1), e);
        assert(enc_meta(p) == enc_meta_entry(p[0]) + enc_meta(p.skip(1)));
        assert(enc_meta(m) == enc_meta_entry(m[0]) + enc_meta(m.skip(1)));
        assert(enc_meta(p) =~= enc_meta(m) + enc_meta_entry(e));
    }
}

proof fn lemma_enc_host_seq_push(s: Seq<HostView>, h: HostView)
    ensures
        enc_host_seq(s.push(h)) == enc_host_seq(s) + enc_host(h),
    decreases s.len(),
{
    let p = s.push(h);
    if s.len() == 0 {
        assert(p[0] == h);
        assert(p.skip(1) =~= Seq::<HostView>::empty());
        assert(enc_host_seq(p) == enc_host(p[0]) + enc_host_seq(p.skip(1)));
        assert(enc_host_seq(p.skip(1)) == Seq::<u8>::empty());
        assert(enc_host_seq(s) == Seq::<u8>::empty());
        assert(enc_host_seq(p) =~= enc_host_seq(s) + enc_host(h));
    } else {
        assert(p.skip(1) =~= s.skip(1).push(h));
        assert(p[0] == s[0]);
        lemma_enc_host_seq_push(s.skip(1), h);
        assert(enc_host_seq(p) == enc_host(p[0]) + enc_host_seq(p.skip(1)));
        assert(enc_host_seq(s) == enc_host(s[0]) + enc_host_seq(s.skip(1)));
        assert(enc_host_seq(p) =~= enc_host_seq(s) + enc_host(h));
    }
}

// ---------------------------------------------------------------------------
// Spec-level parsers
// ---------------------------------------------------------------------------

/// Parses `k` metadata entries at position `i`.
pub open spec fn spec_parse_meta(b: Seq<u8>, i: int, k: nat) -> Option<(
    Seq<(Seq<char>, Seq<char>)>,
    int,
)>
    decreases k,
{
    if k == 0 {
        Some((Seq::empty(), i))
    } else {
        match spec_parse_str(b, i) {
            None => None,
            Some((key, i1)) => match spec_parse_str(b, i1) {
                None => None,
                Some((value, i2)) => match spec_parse_meta(b, i2, (k - 1) as nat) {
                    None => None,
                    Some((rest, j)) => Some((seq![(key, value)] + rest, j)),
                },
            },
        }
    }
}

/// Parses one host record at position `i`.
pub open spec fn spec_parse_host(b: Seq<u8>, i: int) -> Option<(HostView, int)> {
    match spec_parse_str(b, i) {
        None => None,
        Some((alias, i1)) => match spec_parse_str(b, i1) {
            None => None,
            Some((public_key, i2)) => match spec_parse_opt_str(b, i2) {
                None => None,
                Some((description, i3)) => match spec_parse_num(b, i3) {
                    None => None,
                    Some((added_at, i4)) => match spec_parse_opt_num(b, i4) {
                        None => None,
                        Some((last_seen, i5)) => match spec_parse_num(b, i5) {
                            None => None,
                            Some((mcount, i6)) => match spec_parse_meta(b, i6, mcount as nat) {
                                None => None,
                                Some((metadata, j)) => Some(
                                    (
                                        HostView {
                                            alias,
                                            public_key,
                                            description,
                                            added_at,
                                            last_seen,
                                            metadata,
                                        },
                                        j,
                                    ),
                                ),
                            },
                        },
                    },
                },
            },
        },
    }
}

/// Parses `k` host records at position `i`.
pub open spec fn spec_parse_host_seq(b: Seq<u8>, i: int, k: nat) -> Option<(Seq<HostView>, int)>
    decreases k,
{
    if k == 0 {
        Some((Seq::empty(), i))
    } else {
        match spec_parse_host(b, i) {
            None => None,
            Some((h, i1)) => match spec_parse_host_seq(b, i1, (k - 1) as nat) {
                None => None,
                Some((rest, j)) => Some((seq![h] + rest, j)),
            },
        }
    }
}

/// Parses a whole host document; trailing bytes are refused.
pub open spec fn spec_parse_hosts(b: Seq<u8>) -> Option<Seq<HostView>> {
    match spec_parse_num(b, 0) {
        None => None,
        Some((count, i)) => match spec_parse_host_seq(b, i, count as nat) {
            None => None,
            Some((s, j)) => if j == b.len() {
                Some(s)
            } else {
                None
            },
        },
    }
}

// ---------------------------------------------------------------------------
// Round trips
// ---------------------------------------------------------------------------

proof fn lemma_parse_meta_of_enc(b: Seq<u8>, i: int, m: Seq<(Seq<char>, Seq<char>)>)
    requires
        at(b, i, enc_meta(m)),
        forall|k: int|
            0 <= k < m.len() ==> encode_utf8(#[trigger] m[k].0).len() <= u64::MAX && encode_utf8(
                m[k].1,
            ).len() <= u64::MAX,
    ensures
        spec_parse_meta(b, i, m.len()) == Some((m, i + enc_meta(m).len())),
    decreases m.len(),
{
    if m.len() == 0 {
        assert(m =~= Seq::<(Seq<char>, Seq<char>)>::empty());
    } else {
        let e = m[0];
        let rest = m.skip(1);
        assert(enc_meta(m) =~= enc_str(e.0) + (enc_str(e.1) + enc_meta(rest)));
        lemma_at_split(b, i, enc_str(e.0), enc_str(e.1) + enc_meta(rest));
        let i1 = i + enc_str(e.0).len();
        lemma_at_split(b, i1, enc_str(e.1), enc_meta(rest));
        let i2 = i1 + enc_str(e.1).len();
        lemma_parse_str_of_enc(b, i, e.0);
        lemma_parse_str_of_enc(b, i1, e.1);
        assert(forall|k: int|
            0 <= k < rest.len() ==> encode_utf8(#[trigger] rest[k].0).len() <= u64::MAX
                && encode_utf8(rest[k].1).len() <= u64::MAX);
        lemma_parse_meta_of_enc(b, i2, rest);
        assert(seq![(e.0, e.1)] + rest =~= m);
    }
}

proof fn lemma_parse_host_of_enc(b: Seq<u8>, i: int, h: HostView)
    requires
        at(b, i, enc_host(h)),
        host_bounded(h),
    ensures
        spec_parse_host(b, i) == Some((h, i + enc_host(h).len())),
{
    let p1 = enc_str(h.alias);
    let p2 = enc_str(h.public_key);
    let p3 = enc_opt_str(h.description);
    let p4 = enc_num(h.added_at as nat);
    let p5 = enc_opt_num(h.last_seen);
    let p6 = enc_num(h.metadata.len());
    let p7 = enc_meta(h.metadata);
    assert(enc_host(h) =~= p1 + (p2 + (p3 + (p4 + (p5 + (p6 + p7))))));
    lemma_at_split(b, i, p1, p2 + (p3 + (p4 + (p5 + (p6 + p7)))));
    let i1 = i + p1.len();
    lemma_at_split(b, i1, p2, p3 + (p4 + (p5 + (p6 + p7))));
    let i2 = i1 + p2.len();
    lemma_at_split(b, i2, p3, p4 + (p5 + (p6 + p7)));
    let i3 = i2 + p3.len();
    lemma_at_split(b, i3, p4, p5 + (p6 + p7));
    let i4 = i3 + p4.len();
    lemma_at_split(b, i4, p5, p6 + p7);
    let i5 = i4 + p5.len();
    lemma_at_split(b, i5, p6, p7);
    let i6 = i5 + p6.len();
    lemma_parse_str_of_enc(b, i, h.alias);
    lemma_parse_str_of_enc(b, i1, h.public_key);
    lemma_parse_opt_str_of_enc(b, i2, h.description);
    lemma_parse_num_of_enc(b, i3, h.added_at);
    lemma_parse_opt_num_of_enc(b, i4, h.last_seen);
    lemma_parse_num_of_enc(b, i5, h.metadata.len() as u64);
    lemma_parse_meta_of_enc(b, i6, h.metadata);
}

proof fn lemma_parse_host_seq_of_enc(b: Seq<u8>, i: int, s: Seq<HostView>)
    requires
        at(b, i, enc_host_seq(s)),
        forall|k: int| 0 <= k < s.len() ==> host_bounded(#[trigger] s[k]),
    ensures
        spec_parse_host_seq(b, i, s.len()) == Some((s, i + enc_host_seq(s).len())),
    decreases s.len(),
{
    if s.len() == 0 {
        assert(s =~= Seq::<HostView>::empty());
    } else {
        let h = s[0];
        let rest = s.skip(1);
        assert(enc_host_seq(s) =~= enc_host(h) + enc_host_seq(rest));
        lemma_at_split(b, i, enc_host(h), enc_host_seq(rest));
        let i1 = i + enc_host(h).len();
        lemma_parse_host_of_enc(b, i, h);
        assert(forall|k: int| 0 <= k < rest.len() ==> host_bounded(#[trigger] rest[k]));
        lemma_parse_host_seq_of_enc(b, i1, rest);
        assert(seq![h] + rest =~= s);
    }
}

/// Parsing a saved host document yields exactly the saved directory: loading
/// right after a save returns the same registry, whatever sequence of valid
/// mutations produced it.
pub proof fn lemma_hosts_round_trip(s: Seq<HostView>)
    requires
        hosts_bounded(s),
    ensures
        spec_parse_hosts(enc_hosts(s)) == Some(s),
{
    let b = enc_hosts(s);
    assert(b.subrange(0, b.len() as int) =~= b);
    lemma_at_split(b, 0, enc_num(s.len()), enc_host_seq(s));
    lemma_parse_num_of_enc(b, 0, s.len() as u64);
    lemma_parse_host_seq_of_enc(b, enc_num(s.len()).len() as int, s);
}

// ---------------------------------------------------------------------------
// Executable serializer and parser
// ---------------------------------------------------------------------------

/// Appends one host record.
fn encode_host_into(out: &mut Vec<u8>, h: &Host)
    ensures
        final(out)@ == old(out)@ + enc_host(h@),
{
    encode_str_into(out, &h.alias);
    encode_str_into(out, &h.public_key);
    encode_opt_str_into(out, &h.description);
    encode_num_into(out, h.added_at);
    encode_opt_num_into(out, h.last_seen);
    encode_num_into(out, h.metadata.len() as u64);
    let ghost base = out@;
    let mut k: usize = 0;
    while k < h.metadata.len()
        invariant
            k <= h.metadata.len(),
            base == old(out)@ + enc_str(h@.alias) + enc_str(h@.public_key) + enc_opt_str(
                h@.description,
            ) + enc_num(h@.added_at as nat) + enc_opt_num(h@.last_seen) + enc_num(
                h@.metadata.len(),
            ),
            out@ == base + enc_meta(h@.metadata.take(k as int)),
        decreases h.metadata.len() - k,
    {
        let ghost mv = h@.metadata;
        proof {
            assert(mv[k as int] == (h.metadata@[k as int].0@, h.metadata@[k as int].1@));
            assert(mv.take(k as int + 1) =~= mv.take(k as int).push(mv[k as int]));
            lemma_enc_meta_push(mv.take(k as int), mv[k as int]);
        }
        encode_str_into(out, &h.metadata[k].0);
        encode_str_into(out, &h.metadata[k].1);
        k = k + 1;
    }
    proof {
        assert(h@.metadata.take(h@.metadata.len() as int) =~= h@.metadata);
        assert(final(out)@ =~= old(out)@ + enc_host(h@));
    }
}

/// Parses one host record; agrees exactly with [`spec_parse_host`].
#[verifier::rlimit(60)]
#[verifier::loop_isolation(false)]
fn parse_host(b: &Vec<u8>, i: usize) -> (r: Option<(Host, usize)>)
    ensures
        match spec_parse_host(b@, i as int) {
            Some((hv, j)) => r matches Some(p) && p.0@ == hv && p.1 as int == j,
            None => r is None,
        },
{
    let (alias, i1) = match parse_str(b, i) {
        Some(p) => p,
        None => {
            return None;
        },
    };
    let (public_key, i2) = match parse_str(b, i1) {
        Some(p) => p,
        None => {
            return None;
        },
    };
    let (description, i3) = match parse_opt_str(b, i2) {
        Some(p) => p,
        None => {
            return None;
        },
    };
    let (added_at, i4) = match parse_num(b, i3) {
        Some(p) => p,
        None => {
            return None;
        },
    };
    let (last_seen, i5) = match parse_opt_num(b, i4) {
        Some(p) => p,
        None => {
            return None;
        },
    };
    let (mcount, i6) = match parse_num(b, i5) {
        Some(p) => p,
        None => {
            return None;
        },
    };
    proof {
        assert(spec_parse_str(b@, i as int) == Some((alias@, i1 as int)));
        assert(spec_parse_str(b@, i1 as int) == Some((public_key@, i2 as int)));
        assert(spec_parse_opt_str(b@, i2 as int) == Some(
            ((match description {
                Some(ref d) => Some(d@),
                None => None::<Seq<char>>,
            }), i3 as int),
        ));
        assert(spec_parse_num(b@, i3 as int) == Some((added_at, i4 as int)));
        assert(spec_parse_opt_num(b@, i4 as int) == Some((last_seen, i5 as int)));
        assert(spec_parse_num(b@, i5 as int) == Some((mcount, i6 as int)));
    }
    let mut metadata: Vec<(String, String)> = Vec::new();
    let mut cur = i6;
    let mut k: u64 = 0;
    proof {
        assert(metadata@.map_values(|p: (String, String)| (p.0@, p.1@))
            =~= Seq::<(Seq<char>, Seq<char>)>::empty());
    }
    while k < mcount
        invariant
            k <= mcount,
            spec_parse_meta(b@, i6 as int, mcount as nat) == (match spec_parse_meta(
                b@,
                cur as int,
                (mcount - k) as nat,
            ) {
                Some((rest, j)) => Some(
                    (metadata@.map_values(|p: (String, String)| (p.0@, p.1@)) + rest, j),
                ),
                None => None::<(Seq<(Seq<char>, Seq<char>)>, int)>,
            }),
        decreases mcount - k,
    {
        let ghost mv = metadata@.map_values(|p: (String, String)| (p.0@, p.1@));
        let (mkey, c1) = match parse_str(b, cur) {
            Some(p) => p,
            None => {
                proof {
                    assert(spec_parse_meta(b@, cur as int, (mcount - k) as nat) is None);
                    assert(spec_parse_meta(b@, i6 as int, mcount as nat) is None);
                    assert(spec_parse_host(b@, i as int) is None);
                }
                return None;
            },
        };
        let (mvalue, c2) = match parse_str(b, c1) {
            Some(p) => p,
            None => {
                proof {
                    assert(spec_parse_meta(b@, cur as int, (mcount - k) as nat) is None);
                    assert(spec_parse_meta(b@, i6 as int, mcount as nat) is None);
                    assert(spec_parse_host(b@, i as int) is None);
                }
                return None;
            },
        };
        proof {
            let rem = (mcount - k) as nat;
            assert(spec_parse_meta(b@, cur as int, rem) == (match spec_parse_meta(
                b@,
                c2 as int,
                (rem - 1) as nat,
            ) {
                Some((rest, j)) => Some((seq![(mkey@, mvalue@)] + rest, j)),
                None => None::<(Seq<(Seq<char>, Seq<char>)>, int)>,
            }));
            if spec_parse_meta(b@, c2 as int, (rem - 1) as nat) is Some {
                let (rest, _j) = spec_parse_meta(b@, c2 as int, (rem - 1) as nat).unwrap();
                assert(mv + (seq![(mkey@, mvalue@)] + rest) =~= mv.push((mkey@, mvalue@)) + rest);
            }
            assert(metadata@.push((mkey, mvalue)).map_values(|p: (String, String)| (p.0@, p.1@))
                =~= mv.push((mkey@, mvalue@)));
        }
        metadata.push((mkey, mvalue));
        cur = c2;
        k = k + 1;
    }
    proof {
        let mv = metadata@.map_values(|p: (String, String)| (p.0@, p.1@));
        assert(spec_parse_meta(b@, cur as int, 0) == Some((
            Seq::<(Seq<char>, Seq<char>)>::empty(),
            cur as int,
        )));
        assert(mv + Seq::<(Seq<char>, Seq<char>)>::empty() =~= mv);
    }
    let host = Host { alias, public_key, description, added_at, last_seen, metadata };
    Some((host, cur))
}

impl HostConfig {
    /// Serializes the whole directory as one document.
    pub fn serialize(&self) -> (r: Vec<u8>)
        ensures
            r@ == enc_hosts(self@),
    {
        let mut out: Vec<u8> = Vec::new();
        encode_num_into(&mut out, self.hosts.len() as u64);
        let mut k: usize = 0;
        while k < self.hosts.len()
            invariant
                k <= self.hosts.len(),
                out@ == enc_num(self@.len()) + enc_host_seq(self@.take(k as int)),
            decreases self.hosts.len() - k,
        {
            proof {
                assert(self@[k as int] == self.hosts@[k as int]@);
                assert(self@.take(k as int + 1) =~= self@.take(k as int).push(self@[k as int]));
                lemma_enc_host_seq_push(self@.take(k as int), self@[k as int]);
            }
            encode_host_into(&mut out, &self.hosts[k]);
            k = k + 1;
        }
        proof {
            assert(self@.take(self@.len() as int) =~= self@);
        }
        out
    }

    /// Parses a whole document; a corrupt document fails the whole load with
    /// a persistence error and no partial result.
    #[verifier::rlimit(60)]
    #[verifier::loop_isolation(false)]
    pub fn parse(doc: &Vec<u8>) -> (r: Result<HostConfig, PoofError>)
        ensures
            match spec_parse_hosts(doc@) {
                Some(v) => r matches Ok(c) && c@ == v,
                None => r matches Err(e) && e is Persistence,
            },
    {
        let (count, start) = match parse_num(doc, 0) {
            Some(p) => p,
            None => {
                return Err(
                    PoofError::Persistence {
                        message: "Failed to parse host document".to_owned(),
                    },
                );
            },
        };
        let mut hosts: Vec<Host> = Vec::new();
        let mut cur = start;
        let mut k: u64 = 0;
        proof {
            assert(hosts@.map_values(|h: Host| h@) =~= Seq::<HostView>::empty());
        }
        while k < count
            invariant
                k <= count,
                spec_parse_host_seq(doc@, start as int, count as nat) == (match spec_parse_host_seq(
                    doc@,
                    cur as int,
                    (count - k) as nat,
                ) {
                    Some((rest, j)) => Some((hosts@.map_values(|h: Host| h@) + rest, j)),
                    None => None::<(Seq<HostView>, int)>,
                }),
            decreases count - k,
        {
            let ghost hv = hosts@.map_values(|h: Host| h@);
            let (host, c1) = match parse_host(doc, cur) {
                Some(p) => p,
                None => {
                    proof {
                        assert(spec_parse_host_seq(doc@, cur as int, (count - k) as nat)
                            is None);
                        assert(spec_parse_host_seq(doc@, start as int, count as nat) is None);
                        assert(spec_parse_hosts(doc@) is None);
                    }
                    return Err(
                        PoofError::Persistence {
                            message: "Failed to parse host document".to_owned(),
                        },
                    );
                },
            };
            proof {
                let rem = (count - k) as nat;
                if spec_parse_host_seq(doc@, c1 as int, (rem - 1) as nat) is Some {
                    let (rest, _j) = spec_parse_host_seq(doc@, c1 as int, (rem - 1) as nat).unwrap();
                    assert(hv + (seq![host@] + rest) =~= hv.push(host@) + rest);
                }
                assert(hosts@.push(host).map_values(|h: Host| h@) =~= hv.push(host@));
            }
            hosts.push(host);
            cur = c1;
            k = k + 1;
        }
        proof {
            let hv = hosts@.map_values(|h: Host| h@);
            assert(spec_parse_host_seq(doc@, cur as int, 0) == Some((
                Seq::<HostView>::empty(),
                cur as int,
            )));
            assert(hv + Seq::<HostView>::empty() =~= hv);
        }
        if cur != doc.len() {
            return Err(
                PoofError::Persistence {
                    message: "Trailing bytes after host document".to_owned(),
                },
            );
        }
        Ok(HostConfig { hosts })
    }
}

// ---------------------------------------------------------------------------
// The key document
// ---------------------------------------------------------------------------

/// One key record: its four fields.
pub open spec fn enc_key(k: HostKeyView) -> Seq<u8> {
    enc_str(k.name) + enc_str(k.secret_key) + enc_num(k.created_at as nat) + enc_opt_str(
        k.description,
    )
}

/// A key table: its records one after the other.
pub open spec fn enc_key_seq(s: Seq<HostKeyView>) -> Seq<u8>
    decreases s.len(),
{
    if s.len() == 0 {
        Seq::empty()
    } else {
        enc_key(s[0]) + enc_key_seq(s.skip(1))
    }
}

/// The whole key document: a count line, the records, then the designated
/// default name.
pub open spec fn enc_keys(v: KeyConfigView) -> Seq<u8> {
    enc_num(v.keys.len()) + enc_key_seq(v.keys) + enc_opt_str(v.default_key)
}

/// Whether a key's fields are small enough to frame.
pub open spec fn key_bounded(k: HostKeyView) -> bool {
    &&& encode_utf8(k.name).len() <= u64::MAX
    &&& encode_utf8(k.secret_key).len() <= u64::MAX
    &&& (k.description matches Some(d) ==> encode_utf8(d).len() <= u64::MAX)
}

pub open spec fn keys_bounded(v: KeyConfigView) -> bool {
    &&& v.keys.len() <= u64::MAX
    &&& forall|i: int| 0 <= i < v.keys.len() ==> key_bounded(#[trigger] v.keys[i])
    &&& (v.default_key matches Some(d) ==> encode_utf8(d).len() <= u64::MAX)
}

proof fn lemma_enc_key_seq_push(s: Seq<HostKeyView>, k: HostKeyView)
    ensures
        enc_key_seq(s.push(k)) == enc_key_seq(s) + enc_key(k),
    decreases s.len(),
{
    let p = s.push(k);
    if s.len() == 0 {
        assert(p[0] == k);
        assert(p.skip(1) =~= Seq::<HostKeyView>::empty());
        assert(enc_key_seq(p) == enc_key(p[0]) + enc_key_seq(p.skip(1)));
        assert(enc_key_seq(p.skip(1)) == Seq::<u8>::empty());
        assert(enc_key_seq(s) == Seq::<u8>::empty());
        assert(enc_key_seq(p) =~= enc_key_seq(s) + enc_key(k));
    } else {
        assert(p.skip(1) =~= s.skip(1).push(k));
        assert(p[0] == s[0]);
        lemma_enc_key_seq_push(s.skip(1), k);
        assert(enc_key_seq(p) == enc_key(p[0]) + enc_key_seq(p.skip(1)));
        assert(enc_key_seq(s) == enc_key(s[0]) + enc_key_seq(s.skip(1)));
        assert(enc_key_seq(p) =~= enc_key_seq(s) + enc_key(k));
    }
}

/// Parses one key record at position `i`.
pub open spec fn spec_parse_key(b: Seq<u8>, i: int) -> Option<(HostKeyView, int)> {
    match spec_parse_str(b, i) {
        None => None,
        Some((name, i1)) => match spec_parse_str(b, i1) {
            None => None,
            Some((secret_key, i2)) => match spec_parse_num(b, i2) {
                None => None,
                Some((created_at, i3)) => match spec_parse_opt_str(b, i3) {
                    None => None,
                    Some((description, j)) => Some(
                        (HostKeyView { name, secret_key, created_at, description }, j),
                    ),
                },
            },
        },
    }
}

/// Parses `k` key records at position `i`.
pub open spec fn spec_parse_key_seq(b: Seq<u8>, i: int, k: nat) -> Option<(Seq<HostKeyView>, int)>
    decreases k,
{
    if k == 0 {
        Some((Seq::empty(), i))
    } else {
        match spec_parse_key(b, i) {
            None => None,
            Some((e, i1)) => match spec_parse_key_seq(b, i1, (k - 1) as nat) {
                None => None,
                Some((rest, j)) => Some((seq![e] + rest, j)),
            },
        }
    }
}

/// Parses a whole key document; trailing bytes are refused.
pub open spec fn spec_parse_keys(b: Seq<u8>) -> Option<KeyConfigView> {
    match spec_parse_num(b, 0) {
        None => None,
        Some((count, i)) => match spec_parse_key_seq(b, i, count as nat) {
            None => None,
            Some((keys, j)) => match spec_parse_opt_str(b, j) {
                None => None,
                Some((default_key, j2)) => if j2 == b.len() {
                    Some(KeyConfigView { keys, default_key })
                } else {
                    None
                },
            },
        },
    }
}

proof fn lemma_parse_key_of_enc(b: Seq<u8>, i: int, k: HostKeyView)
    requires
        at(b, i, enc_key(k)),
        key_bounded(k),
    ensures
        spec_parse_key(b, i) == Some((k, i + enc_key(k).len())),
{
    let p1 = enc_str(k.name);
    let p2 = enc_str(k.secret_key);
    let p3 = enc_num(k.created_at as nat);
    let p4 = enc_opt_str(k.description);
    assert(enc_key(k) =~= p1 + (p2 + (p3 + p4)));
    lemma_at_split(b, i, p1, p2 + (p3 + p4));
    let i1 = i + p1.len();
    lemma_at_split(b, i1, p2, p3 + p4);
    let i2 = i1 + p2.len();
    lemma_at_split(b, i2, p3, p4);
    let i3 = i2 + p3.len();
    lemma_parse_str_of_enc(b, i, k.name);
    lemma_parse_str_of_enc(b, i1, k.secret_key);
    lemma_parse_num_of_enc(b, i2, k.created_at);
    lemma_parse_opt_str_of_enc(b, i3, k.description);
}

proof fn lemma_parse_key_seq_of_enc(b: Seq<u8>, i: int, s: Seq<HostKeyView>)
    requires
        at(b, i, enc_key_seq(s)),
        forall|k: int| 0 <= k < s.len() ==> key_bounded(#[trigger] s[k]),
    ensures
        spec_parse_key_seq(b, i, s.len()) == Some((s, i + enc_key_seq(s).len())),
    decreases s.len(),
{
    if s.len() == 0 {
        assert(s =~= Seq::<HostKeyView>::empty());
    } else {
        let e = s[0];
        let rest = s.skip(1);
        assert(enc_key_seq(s) =~= enc_key(e) + enc_key_seq(rest));
        lemma_at_split(b, i, enc_key(e), enc_key_seq(rest));
        let i1 = i + enc_key(e).len();
        lemma_parse_key_of_enc(b, i, e);
        assert(forall|k: int| 0 <= k < rest.len() ==> key_bounded(#[trigger] rest[k]));
        lemma_parse_key_seq_of_enc(b, i1, rest);
        assert(seq![e] + rest =~= s);
    }
}

/// Parsing a saved key document yields exactly the saved directory: loading
/// right after a save returns the same registry, whatever sequence of valid
/// mutations produced it.
pub proof fn lemma_keys_round_trip(v: KeyConfigView)
    requires
        keys_bounded(v),
    ensures
        spec_parse_keys(enc_keys(v)) == Some(v),
{
    let b = enc_keys(v);
    assert(b =~= enc_num(v.keys.len()) + (enc_key_seq(v.keys) + enc_opt_str(v.default_key)));
    assert(b.subrange(0, b.len() as int) =~= b);
    lemma_at_split(b, 0, enc_num(v.keys.len()), enc_key_seq(v.keys) + enc_opt_str(v.default_key));
    let i = enc_num(v.keys.len()).len() as int;
    lemma_at_split(b, i, enc_key_seq(v.keys), enc_opt_str(v.default_key));
    let j = i + enc_key_seq(v.keys).len();
    lemma_parse_num_of_enc(b, 0, v.keys.len() as u64);
    lemma_parse_key_seq_of_enc(b, i, v.keys);
    lemma_parse_opt_str_of_enc(b, j, v.default_key);
}

/// Appends one key record.
fn encode_key_into(out: &mut Vec<u8>, k: &HostKey)
    ensures
        final(out)@ == old(out)@ + enc_key(k@),
{
    encode_str_into(out, &k.name);
    encode_str_into(out, &k.secret_key);
    encode_num_into(out, k.created_at);
    encode_opt_str_into(out, &k.description);
    proof {
        assert(final(out)@ =~= old(out)@ + enc_key(k@));
    }
}

/// Parses one key record; agrees exactly with [`spec_parse_key`].
fn parse_key(b: &Vec<u8>, i: usize) -> (r: Option<(HostKey, usize)>)
    ensures
        match spec_parse_key(b@, i as int) {
            Some((kv, j)) => r matches Some(p) && p.0@ == kv && p.1 as int == j,
            None => r is None,
        },
{
    let (name, i1) = match parse_str(b, i) {
        Some(p) => p,
        None => {
            return None;
        },
    };
    let (secret_key, i2) = match parse_str(b, i1) {
        Some(p) => p,
        None => {
            return None;
        },
    };
    let (created_at, i3) = match parse_num(b, i2) {
        Some(p) => p,
        None => {
            return None;
        },
    };
    let (description, j) = match parse_opt_str(b, i3) {
        Some(p) => p,
        None => {
            return None;
        },
    };
    Some((HostKey { name, secret_key, created_at, description }, j))
}

impl KeyConfig {
    /// Serializes the whole directory as one document.
    pub fn serialize(&self) -> (r: Vec<u8>)
        ensures
            r@ == enc_keys(self@),
    {
        let mut out: Vec<u8> = Vec::new();
        encode_num_into(&mut out, self.keys.len() as u64);
        let mut k: usize = 0;
        while k < self.keys.len()
            invariant
                k <= self.keys.len(),
                out@ == enc_num(self@.keys.len()) + enc_key_seq(self@.keys.take(k as int)),
            decreases self.keys.len() - k,
        {
            proof {
                assert(self@.keys[k as int] == self.keys@[k as int]@);
                assert(self@.keys.take(k as int + 1) =~= self@.keys.take(k as int).push(
                    self@.keys[k as int],
                ));
                lemma_enc_key_seq_push(self@.keys.take(k as int), self@.keys[k as int]);
            }
            encode_key_into(&mut out, &self.keys[k]);
            k = k + 1;
        }
        encode_opt_str_into(&mut out, &self.default_key);
        proof {
            assert(self@.keys.take(self@.keys.len() as int) =~= self@.keys);
            assert(out@ =~= enc_keys(self@));
        }
        out
    }

    /// Parses a whole document; a corrupt document fails the whole load with
    /// a persistence error and no partial result.
    #[verifier::rlimit(60)]
    #[verifier::loop_isolation(false)]
    pub fn parse(doc: &Vec<u8>) -> (r: Result<KeyConfig, PoofError>)
        ensures
            match spec_parse_keys(doc@) {
                Some(v) => r matches Ok(c) && c@ == v,
                None => r matches Err(e) && e is Persistence,
            },
    {
        let (count, start) = match parse_num(doc, 0) {
            Some(p) => p,
            None => {
                return Err(
                    PoofError::Persistence {
                        message: "Failed to parse key document".to_owned(),
                    },
                );
            },
        };
        let mut keys: Vec<HostKey> = Vec::new();
        let mut cur = start;
        let mut k: u64 = 0;
        proof {
            assert(keys@.map_values(|x: HostKey| x@) =~= Seq::<HostKeyView>::empty());
        }
        while k < count
            invariant
                k <= count,
                spec_parse_key_seq(doc@, start as int, count as nat) == (match spec_parse_key_seq(
                    doc@,
                    cur as int,
                    (count - k) as nat,
                ) {
                    Some((rest, j)) => Some((keys@.map_values(|x: HostKey| x@) + rest, j)),
                    None => None::<(Seq<HostKeyView>, int)>,
                }),
            decreases count - k,
        {
            let ghost kv = keys@.map_values(|x: HostKey| x@);
            let (key, c1) = match parse_key(doc, cur) {
                Some(p) => p,
                None => {
                    proof {
                        assert(spec_parse_key_seq(doc@, cur as int, (count - k) as nat) is None);
                        assert(spec_parse_key_seq(doc@, start as int, count as nat) is None);
                        assert(spec_parse_keys(doc@) is None);
                    }
                    return Err(
                        PoofError::Persistence {
                            message: "Failed to parse key document".to_owned(),
                        },
                    );
                },
            };
            proof {
                let rem = (count - k) as nat;
                if spec_parse_key_seq(doc@, c1 as int, (rem - 1) as nat) is Some {
                    let (rest, _j) = spec_parse_key_seq(doc@, c1 as int, (rem - 1) as nat).unwrap();
                    assert(kv + (seq![key@] + rest) =~= kv.push(key@) + rest);
                }
                assert(keys@.push(key).map_values(|x: HostKey| x@) =~= kv.push(key@));
            }
            keys.push(key);
            cur = c1;
            k = k + 1;
        }
        proof {
            let kv = keys@.map_values(|x: HostKey| x@);
            assert(spec_parse_key_seq(doc@, cur as int, 0) == Some((
                Seq::<HostKeyView>::empty(),
                cur as int,
            )));
            assert(kv + Seq::<HostKeyView>::empty() =~= kv);
        }
        let (default_key, end) = match parse_opt_str(doc, cur) {
            Some(p) => p,
            None => {
                return Err(
                    PoofError::Persistence {
                        message: "Failed to parse key document".to_owned(),
                    },
                );
            },
        };
        if end != doc.len() {
            return Err(
                PoofError::Persistence {
                    message: "Trailing bytes after key document".to_owned(),
                },
            );
        }
        Ok(KeyConfig { keys, default_key })
    }
}

// ---------------------------------------------------------------------------
// Managers: load, mutate, save as one verified step over document bytes
// ---------------------------------------------------------------------------

/// The host registry's command layer: every mutation is one whole-document
/// load, one in-memory change, and one whole-document save. The caller reads
/// and writes the backing file and passes the bytes here.
pub struct HostManager;

impl HostManager {
    pub fn new() -> (m: HostManager) {
        HostManager
    }

    /// Adds a host to the document; conflicts are rejected before any
    /// mutation, and a corrupt document fails the whole command.
    pub fn add_host(
        &self,
        doc: &Vec<u8>,
        alias: String,
        public_key: String,
        description: Option<String>,
        now: u64,
    ) -> (r: Result<Vec<u8>, PoofError>)
        ensures
            spec_parse_hosts(doc@) is None ==> (r matches Err(e) && e is Persistence),
            spec_parse_hosts(doc@) matches Some(v) ==> if has_alias(v, alias@) || has_public_key(
                v,
                public_key@,
            ) {
                r matches Err(e) && e is Conflict
            } else {
                r matches Ok(d) && d@ == enc_hosts(
                    v.push(
                        HostView {
                            alias: alias@,
                            public_key: public_key@,
                            description: match description {
                                Some(dd) => Some(dd@),
                                None => None,
                            },
                            added_at: now,
                            last_seen: None,
                            metadata: Seq::empty(),
                        },
                    ),
                )
            },
    {
        let mut cfg = match HostConfig::parse(doc) {
            Ok(c) => c,
            Err(e) => {
                return Err(e);
            },
        };
        let host = Host::new(alias, public_key, description, now);
        proof {
            assert(host@.metadata =~= Seq::<(Seq<char>, Seq<char>)>::empty());
        }
        match cfg.add_host(host) {
            Ok(()) => Ok(cfg.serialize()),
            Err(e) => Err(e),
        }
    }

    /// Removes a host from the document and returns the new document with
    /// the removed record.
    pub fn remove_host(&self, doc: &Vec<u8>, alias: &String) -> (r: Result<
        (Vec<u8>, Host),
        PoofError,
    >)
        ensures
            spec_parse_hosts(doc@) is None ==> (r matches Err(e) && e is Persistence),
            spec_parse_hosts(doc@) matches Some(v) ==> if !has_alias(v, alias@) {
                r matches Err(e) && e is NotFound
            } else {
                r matches Ok(p) && exists|i: int|
                    {
                        &&& 0 <= i < v.len()
                        &&& v[i].alias == alias@
                        &&& (forall|j: int| 0 <= j < i ==> v[j].alias != alias@)
                        &&& p.1@ == v[i]
                        &&& p.0@ == enc_hosts(v.remove(i))
                    }
            },
    {
        let mut cfg = match HostConfig::parse(doc) {
            Ok(c) => c,
            Err(e) => {
                return Err(e);
            },
        };
        match cfg.remove_host(alias) {
            Ok(h) => Ok((cfg.serialize(), h)),
            Err(e) => Err(e),
        }
    }

    /// All hosts held by the document, in storage order.
    pub fn list_hosts(&self, doc: &Vec<u8>) -> (r: Result<Vec<Host>, PoofError>)
        ensures
            spec_parse_hosts(doc@) is None ==> (r matches Err(e) && e is Persistence),
            spec_parse_hosts(doc@) matches Some(v) ==> (r matches Ok(l) && l@.map_values(
                |h: Host| h@,
            ) == v),
    {
        match HostConfig::parse(doc) {
            Ok(c) => Ok(c.hosts),
            Err(e) => Err(e),
        }
    }

    /// The host with this alias, if the document holds one.
    pub fn get_host(&self, doc: &Vec<u8>, alias: &String) -> (r: Result<Option<Host>, PoofError>)
        ensures
            spec_parse_hosts(doc@) is None ==> (r matches Err(e) && e is Persistence),
            spec_parse_hosts(doc@) matches Some(v) ==> (r matches Ok(o) && (match o {
                Some(h) => exists|i: int|
                    {
                        &&& 0 <= i < v.len()
                        &&& v[i].alias == alias@
                        &&& (forall|j: int| 0 <= j < i ==> v[j].alias != alias@)
                        &&& h@ == v[i]
                    },
                None => !has_alias(v, alias@),
            })),
    {
        let mut cfg = match HostConfig::parse(doc) {
            Ok(c) => c,
            Err(e) => {
                return Err(e);
            },
        };
        match cfg.remove_host(alias) {
            Ok(h) => Ok(Some(h)),
            Err(_) => Ok(None),
        }
    }

    /// The host bound to this peer identity, if the document holds one.
    pub fn find_by_public_key(&self, doc: &Vec<u8>, public_key: &String) -> (r: Result<
        Option<Host>,
        PoofError,
    >)
        ensures
            spec_parse_hosts(doc@) is None ==> (r matches Err(e) && e is Persistence),
            spec_parse_hosts(doc@) matches Some(v) ==> (r matches Ok(o) && (match o {
                Some(h) => exists|i: int|
                    {
                        &&& 0 <= i < v.len()
                        &&& v[i].public_key == public_key@
                        &&& (forall|j: int| 0 <= j < i ==> v[j].public_key != public_key@)
                        &&& h@ == v[i]
                    },
                None => !has_public_key(v, public_key@),
            })),
    {
        let mut cfg = match HostConfig::parse(doc) {
            Ok(c) => c,
            Err(e) => {
                return Err(e);
            },
        };
        match find_public_key(&cfg.hosts, public_key) {
            Some(i) => {
                proof {
                    assert(cfg@[i as int] == cfg.hosts@[i as int]@);
                }
                Ok(Some(cfg.hosts.remove(i)))
            },
            None => Ok(None),
        }
    }

    /// Marks the host with this alias as seen at `now`; if the alias is
    /// absent the document is returned unchanged, a silent no-op.
    pub fn update_last_seen(&self, doc: &Vec<u8>, alias: &String, now: u64) -> (r: Result<
        Vec<u8>,
        PoofError,
    >)
        ensures
            spec_parse_hosts(doc@) is None ==> (r matches Err(e) && e is Persistence),
            spec_parse_hosts(doc@) matches Some(v) ==> if !has_alias(v, alias@) {
                r matches Ok(d) && d@ == doc@
            } else {
                r matches Ok(d) && exists|i: int|
                    {
                        &&& 0 <= i < v.len()
                        &&& v[i].alias == alias@
                        &&& (forall|j: int| 0 <= j < i ==> v[j].alias != alias@)
                        &&& d@ == enc_hosts(
                            v.update(i, HostView { last_seen: Some(now), ..v[i] }),
                        )
                    }
            },
    {
        let mut cfg = match HostConfig::parse(doc) {
            Ok(c) => c,
            Err(e) => {
                return Err(e);
            },
        };
        let present = match cfg.get_host(alias) {
            Some(_) => true,
            None => false,
        };
        if !present {
            return Ok(copy_doc(doc));
        }
        cfg.update_last_seen(alias, now);
        Ok(cfg.serialize())
    }

    /// Renames a host atomically against a freshly loaded document; on any
    /// failure both hosts remain exactly as they were.
    pub fn rename_host(&self, doc: &Vec<u8>, old_alias: &String, new_alias: String) -> (r: Result<
        Vec<u8>,
        PoofError,
    >)
        ensures
            spec_parse_hosts(doc@) is None ==> (r matches Err(e) && e is Persistence),
            spec_parse_hosts(doc@) matches Some(v) ==> if has_alias(v, new_alias@) {
                r matches Err(e) && e is Conflict
            } else if !has_alias(v, old_alias@) {
                r matches Err(e) && e is NotFound
            } else {
                r matches Ok(d) && exists|i: int|
                    {
                        &&& 0 <= i < v.len()
                        &&& v[i].alias == old_alias@
                        &&& (forall|j: int| 0 <= j < i ==> v[j].alias != old_alias@)
                        &&& d@ == enc_hosts(v.update(i, HostView { alias: new_alias@, ..v[i] }))
                    }
            },
    {
        let mut cfg = match HostConfig::parse(doc) {
            Ok(c) => c,
            Err(e) => {
                return Err(e);
            },
        };
        match cfg.update_host_alias(old_alias, new_alias) {
            Ok(()) => Ok(cfg.serialize()),
            Err(e) => Err(e),
        }
    }
}

/// Copies a document.
fn copy_doc(doc: &Vec<u8>) -> (r: Vec<u8>)
    ensures
        r@ == doc@,
{
    let r = crate::codec::copy_range(doc, 0, doc.len());
    proof {
        assert(doc@.subrange(0, doc@.len() as int) =~= doc@);
    }
    r
}

/// The key registry's command layer, over document bytes like
/// [`HostManager`].
pub struct KeyManager;

impl KeyManager {
    pub fn new() -> (m: KeyManager) {
        KeyManager
    }

    /// Adds a key to the document; the first key ever added becomes the
    /// default automatically.
    pub fn add_key(
        &self,
        doc: &Vec<u8>,
        name: String,
        secret_key: String,
        description: Option<String>,
        now: u64,
    ) -> (r: Result<Vec<u8>, PoofError>)
        ensures
            spec_parse_keys(doc@) is None ==> (r matches Err(e) && e is Persistence),
            spec_parse_keys(doc@) matches Some(v) ==> if has_key_name(v.keys, name@) {
                r matches Err(e) && e is Conflict
            } else {
                r matches Ok(d) && d@ == enc_keys(
                    KeyConfigView {
                        keys: v.keys.push(
                            HostKeyView {
                                name: name@,
                                secret_key: secret_key@,
                                created_at: now,
                                description: match description {
                                    Some(dd) => Some(dd@),
                                    None => None,
                                },
                            },
                        ),
                        default_key: if v.default_key is None {
                            Some(name@)
                        } else {
                            v.default_key
                        },
                    },
                )
            },
    {
        let mut cfg = match KeyConfig::parse(doc) {
            Ok(c) => c,
            Err(e) => {
                return Err(e);
            },
        };
        let key = HostKey::new(name, secret_key, description, now);
        match cfg.add_key(key) {
            Ok(()) => Ok(cfg.serialize()),
            Err(e) => Err(e),
        }
    }

    /// Removes a key from the document and returns the new document with the
    /// removed record; the default is reassigned or cleared as needed.
    pub fn remove_key(&self, doc: &Vec<u8>, name: &String) -> (r: Result<
        (Vec<u8>, HostKey),
        PoofError,
    >)
        ensures
            spec_parse_keys(doc@) is None ==> (r matches Err(e) && e is Persistence),
            spec_parse_keys(doc@) matches Some(v) ==> if !has_key_name(v.keys, name@) {
                r matches Err(e) && e is NotFound
            } else {
                r matches Ok(p) && exists|i: int|
                    {
                        &&& 0 <= i < v.keys.len()
                        &&& v.keys[i].name == name@
                        &&& (forall|j: int| 0 <= j < i ==> v.keys[j].name != name@)
                        &&& p.1@ == v.keys[i]
                        &&& p.0@ == enc_keys(
                            KeyConfigView {
                                keys: v.keys.remove(i),
                                default_key: if v.default_key == Some(name@) {
                                    if v.keys.remove(i).len() == 0 {
                                        None
                                    } else {
                                        Some(v.keys.remove(i)[0].name)
                                    }
                                } else {
                                    v.default_key
                                },
                            },
                        )
                    }
            },
    {
        let mut cfg = match KeyConfig::parse(doc) {
            Ok(c) => c,
            Err(e) => {
                return Err(e);
            },
        };
        match cfg.remove_key(name) {
            Ok(k) => Ok((cfg.serialize(), k)),
            Err(e) => Err(e),
        }
    }

    /// The key with this name, if the document holds one.
    pub fn get_key(&self, doc: &Vec<u8>, name: &String) -> (r: Result<Option<HostKey>, PoofError>)
        ensures
            spec_parse_keys(doc@) is None ==> (r matches Err(e) && e is Persistence),
            spec_parse_keys(doc@) matches Some(v) ==> (r matches Ok(o) && (match o {
                Some(k) => exists|i: int|
                    {
                        &&& 0 <= i < v.keys.len()
                        &&& v.keys[i].name == name@
                        &&& (forall|j: int| 0 <= j < i ==> v.keys[j].name != name@)
                        &&& k@ == v.keys[i]
                    },
                None => !has_key_name(v.keys, name@),
            })),
    {
        let mut cfg = match KeyConfig::parse(doc) {
            Ok(c) => c,
            Err(e) => {
                return Err(e);
            },
        };
        match cfg.remove_key(name) {
            Ok(k) => Ok(Some(k)),
            Err(_) => Ok(None),
        }
    }

    /// The designated default key, if the document holds one.
    pub fn get_default_key(&self, doc: &Vec<u8>) -> (r: Result<Option<HostKey>, PoofError>)
        ensures
            spec_parse_keys(doc@) is None ==> (r matches Err(e) && e is Persistence),
            spec_parse_keys(doc@) matches Some(v) ==> (r matches Ok(o) && (match o {
                Some(k) => v.default_key matches Some(d) && exists|i: int|
                    {
                        &&& 0 <= i < v.keys.len()
                        &&& v.keys[i].name == d
                        &&& (forall|j: int| 0 <= j < i ==> v.keys[j].name != d)
                        &&& k@ == v.keys[i]
                    },
                None => v.default_key is None || (v.default_key matches Some(d)
                    && !has_key_name(v.keys, d)),
            })),
    {
        let mut cfg = match KeyConfig::parse(doc) {
            Ok(c) => c,
            Err(e) => {
                return Err(e);
            },
        };
        let dname = match &cfg.default_key {
            Some(d) => d.clone(),
            None => {
                return Ok(None);
            },
        };
        match cfg.remove_key(&dname) {
            Ok(k) => Ok(Some(k)),
            Err(_) => Ok(None),
        }
    }

    /// Designates the default key in the document; fails if the name is
    /// unknown.
    pub fn set_default_key(&self, doc: &Vec<u8>, name: String) -> (r: Result<Vec<u8>, PoofError>)
        ensures
            spec_parse_keys(doc@) is None ==> (r matches Err(e) && e is Persistence),
            spec_parse_keys(doc@) matches Some(v) ==> if !has_key_name(v.keys, name@) {
                r matches Err(e) && e is NotFound
            } else {
                r matches Ok(d) && d@ == enc_keys(
                    KeyConfigView { keys: v.keys, default_key: Some(name@) },
                )
            },
    {
        let mut cfg = match KeyConfig::parse(doc) {
            Ok(c) => c,
            Err(e) => {
                return Err(e);
            },
        };
        match cfg.set_default_key(name) {
            Ok(()) => Ok(cfg.serialize()),
            Err(e) => Err(e),
        }
    }

    /// All keys held by the document, in storage order.
    pub fn list_keys(&self, doc: &Vec<u8>) -> (r: Result<Vec<HostKey>, PoofError>)
        ensures
            spec_parse_keys(doc@) is None ==> (r matches Err(e) && e is Persistence),
            spec_parse_keys(doc@) matches Some(v) ==> (r matches Ok(l) && l@.map_values(
                |k: HostKey| k@,
            ) == v.keys),
    {
        match KeyConfig::parse(doc) {
            Ok(c) => Ok(c.keys),
            Err(e) => Err(e),
        }
    }
}

} // verus!
