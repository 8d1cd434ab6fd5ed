//! Persisted group membership.
//!
//! A group's intended membership is written to a file of its own whenever it
//! changes. A restarted node reads it back and so knows which peers to expect,
//! instead of starting as a group of one.
//!
//! ```text
//! [group_id: u64 LE] [term: u64 LE] [member_count: u32 LE]
//! then for each member
//!   [replica_id: u64 LE] [voting: u8] [endpoint_len: u16 LE] [endpoint]
//! ```

use crate::common::path::{join_path, joined};
use crate::common::text::{concat2, concat3, dec, decimal};
use crate::common::wire::{
    copy_range, get_le, le_bytes, le_value, le_value_reads_back_le_bytes, lemma_le_bytes_len,
    lemma_pow256_values, put_bytes, put_le,
};
use crate::paxos::{PxGroupId, PxTerm};
use vstd::prelude::*;
use vstd::string::*;
use vstd::utf8::{decode_utf8, encode_utf8, valid_utf8};

verus! {

/// What a member says.
pub struct MemberView {
    pub replica_id: u64,
    pub endpoint: Seq<char>,
    pub voting: bool,
}

/// What a configuration says.
pub struct ConfigView {
    pub group_id: u64,
    pub term: u64,
    pub members: Seq<MemberView>,
}

/// A member of a persisted configuration.
#[derive(Debug)]
pub struct PxGroupMember {
    pub replica_id: u64,
    pub endpoint: String,
    pub voting: bool,
}

impl View for PxGroupMember {
    type V = MemberView;

    open spec fn view(&self) -> MemberView {
        MemberView {
            replica_id: self.replica_id,
            endpoint: self.endpoint@,
            voting: self.voting,
        }
    }
}

impl Clone for PxGroupMember {
    fn clone(&self) -> (r: Self)
        ensures
            r == *self,
    {
        PxGroupMember {
            replica_id: self.replica_id,
            endpoint: self.endpoint.clone(),
            voting: self.voting,
        }
    }
}

/// What a sequence of members says.
pub open spec fn members_view(m: Seq<PxGroupMember>) -> Seq<MemberView> {
    m.map_values(|m: PxGroupMember| m@)
}

/// Durable membership of a group.
#[derive(Debug)]
pub struct PxGroupConfig {
    pub group_id: PxGroupId,
    pub term: PxTerm,
    pub members: Vec<PxGroupMember>,
}

impl View for PxGroupConfig {
    type V = ConfigView;

    open spec fn view(&self) -> ConfigView {
        ConfigView {
            group_id: self.group_id,
            term: self.term,
            members: members_view(self.members@),
        }
    }
}

/// `n`, but at most `bound`.
pub open spec fn capped(n: nat, bound: nat) -> nat {
    if n <= bound {
        n
    } else {
        bound
    }
}

/// The byte form of a member. A length beyond two bytes is written as the
/// largest that fits; the endpoint itself is written whole.
pub open spec fn member_bytes(m: MemberView) -> Seq<u8> {
    le_bytes(m.replica_id as nat, 8) + seq![
        if m.voting {
            1u8
        } else {
            0u8
        },
    ] + le_bytes(capped(encode_utf8(m.endpoint).len(), u16::MAX as nat), 2) + encode_utf8(
        m.endpoint,
    )
}

/// The byte forms of members, one behind the other.
pub open spec fn members_bytes(m: Seq<MemberView>) -> Seq<u8>
    decreases m.len(),
{
    if m.len() == 0 {
        Seq::empty()
    } else {
        members_bytes(m.drop_last()) + member_bytes(m.last())
    }
}

/// The byte form of a configuration.
pub open spec fn config_bytes(c: ConfigView) -> Seq<u8> {
    le_bytes(c.group_id as nat, 8) + le_bytes(c.term as nat, 8) + le_bytes(
        capped(c.members.len(), u32::MAX as nat),
        4,
    ) + members_bytes(c.members)
}

/// The text with which `String::from_utf8` describes why `bytes` are not UTF-8.
pub uninterp spec fn utf8_error_text(bytes: Seq<u8>) -> Seq<char>;

/// `String::from_utf8`, with its error as text: the text that the bytes spell
/// if they are valid UTF-8, and the description of the fault otherwise.
#[verifier::external_body]
pub(crate) fn text_from_utf8(bytes: Vec<u8>) -> (r: Result<String, String>)
    ensures
        match r {
            Ok(s) => valid_utf8(bytes@) && s@ == decode_utf8(bytes@),
            Err(e) => !valid_utf8(bytes@) && e@ == utf8_error_text(bytes@),
        },
{
    String::from_utf8(bytes).map_err(|e| e.to_string())
}

/// The member at the head of `s` and the number of bytes it takes, or what is
/// wrong with it.
#[verifier::opaque]
pub open spec fn parse_member(s: Seq<u8>) -> Result<(MemberView, int), Seq<char>> {
    if s.len() < 8 {
        Err("truncated replica_id"@)
    } else if s.len() < 9 {
        Err("truncated voting"@)
    } else if s.len() < 11 {
        Err("truncated endpoint_len"@)
    } else {
        let len = le_value(s.subrange(9, 11)) as int;
        if s.len() < 11 + len {
            Err("truncated endpoint"@)
        } else {
            let bytes = s.subrange(11, 11 + len);
            if valid_utf8(bytes) {
                Ok(
                    (
                        MemberView {
                            replica_id: le_value(s.subrange(0, 8)) as u64,
                            endpoint: decode_utf8(bytes),
                            voting: s[8] != 0,
                        },
                        11 + len,
                    ),
                )
            } else {
                Err("invalid endpoint utf8: "@ + utf8_error_text(bytes))
            }
        }
    }
}

/// The first `n` members in `s`, or what is wrong with the first faulty one.
pub open spec fn parse_members(s: Seq<u8>, n: nat) -> Result<Seq<MemberView>, Seq<char>>
    decreases n,
{
    if n == 0 {
        Ok(Seq::empty())
    } else {
        match parse_member(s) {
            Err(e) => Err(e),
            Ok((m, len)) => match parse_members(s.skip(len), (n - 1) as nat) {
                Err(e) => Err(e),
                Ok(rest) => Ok(seq![m] + rest),
            },
        }
    }
}

/// The configuration that `s` spells, or what is wrong with it. Bytes behind
/// the last member are ignored.
pub open spec fn parse_config(s: Seq<u8>) -> Result<ConfigView, Seq<char>> {
    if s.len() < 8 {
        Err("truncated group_id"@)
    } else if s.len() < 16 {
        Err("truncated term"@)
    } else if s.len() < 20 {
        Err("truncated member_count"@)
    } else {
        match parse_members(s.skip(20), le_value(s.subrange(16, 20))) {
            Err(e) => Err(e),
            Ok(members) => Ok(
                ConfigView {
                    group_id: le_value(s.subrange(0, 8)) as u64,
                    term: le_value(s.subrange(8, 16)) as u64,
                    members,
                },
            ),
        }
    }
}

fn truncated(label: &str) -> (s: String)
    ensures
        s@ == "truncated "@ + label@,
{
    concat2("truncated ", label)
}

fn parse_member_at(payload: &[u8], off: usize) -> (r: Result<(PxGroupMember, usize), String>)
    requires
        off <= payload@.len(),
    ensures
        match (r, parse_member(payload@.skip(off as int))) {
            (Ok((m, next)), Ok((v, len))) => {
                &&& m@ == v
                &&& next == off + len
                &&& off < next <= payload@.len()
            },
            (Err(e), Err(t)) => e@ == t,
            _ => false,
        },
{
    proof {
        reveal(parse_member);
        reveal_strlit("truncated ");
        reveal_strlit("replica_id");
        reveal_strlit("truncated replica_id");
        reveal_strlit("voting");
        reveal_strlit("truncated voting");
        reveal_strlit("endpoint_len");
        reveal_strlit("truncated endpoint_len");
        reveal_strlit("endpoint");
        reveal_strlit("truncated endpoint");
        assert("truncated "@ + "replica_id"@ =~= "truncated replica_id"@);
        assert("truncated "@ + "voting"@ =~= "truncated voting"@);
        assert("truncated "@ + "endpoint_len"@ =~= "truncated endpoint_len"@);
        assert("truncated "@ + "endpoint"@ =~= "truncated endpoint"@);
        lemma_pow256_values();
    }
    let ghost t = payload@.skip(off as int);
    let left: usize = payload.len() - off;
    if left < 8 {
        return Err(truncated("replica_id"));
    }
    let replica_id: u64 = get_le(payload, off, 8);
    if left < 9 {
        return Err(truncated("voting"));
    }
    let voting = payload[off + 8] != 0;
    if left < 11 {
        return Err(truncated("endpoint_len"));
    }
    let len: u64 = get_le(payload, off + 9, 2);
    proof {
        assert(t.subrange(0, 8) =~= payload@.subrange(off as int, off + 8));
        assert(t.subrange(9, 11) =~= payload@.subrange(off + 9, off + 11));
        assert(t[8] == payload@[off + 8]);
    }
    if ((left - 11) as u64) < len {
        return Err(truncated("endpoint"));
    }
    let next: usize = off + 11 + len as usize;
    let bytes: Vec<u8> = copy_range(payload, off + 11, next);
    proof {
        assert(t.subrange(11, 11 + len) =~= payload@.subrange(off + 11, next as int));
    }
    match text_from_utf8(bytes) {
        Ok(endpoint) => Ok((PxGroupMember { replica_id, endpoint, voting }, next)),
        Err(e) => Err(concat2("invalid endpoint utf8: ", e.as_str())),
    }
}

impl PxGroupConfig {
    /// The byte form of this configuration.
    pub fn encode(&self) -> (buf: Vec<u8>)
        ensures
            buf@ == config_bytes(self@),
    {
        let ghost c = self@;
        let mut buf: Vec<u8> = Vec::new();
        put_le(&mut buf, self.group_id, 8);
        put_le(&mut buf, self.term, 8);
        let n: u64 = self.members.len() as u64;
        let count: u64 = if n <= u32::MAX as u64 {
            n
        } else {
            u32::MAX as u64
        };
        put_le(&mut buf, count, 4);
        let ghost head = buf@;
        proof {
            assert(head =~= le_bytes(c.group_id as nat, 8) + le_bytes(c.term as nat, 8) + le_bytes(
                capped(c.members.len(), u32::MAX as nat),
                4,
            ));
            assert(c.members.take(0) =~= Seq::empty());
            assert(head + members_bytes(c.members.take(0)) =~= head);
        }
        let mut i: usize = 0;
        while i < self.members.len()
            invariant
                i <= self.members.len(),
                c == self@,
                buf@ == head + members_bytes(c.members.take(i as int)),
            decreases self.members.len() - i,
        {
            let ghost before = buf@;
            let m = &self.members[i];
            put_le(&mut buf, m.replica_id, 8);
            buf.push(
                if m.voting {
                    1
                } else {
                    0
                },
            );
            let bytes = m.endpoint.as_str().as_bytes();
            let n: u64 = bytes.len() as u64;
            let len: u64 = if n <= u16::MAX as u64 {
                n
            } else {
                u16::MAX as u64
            };
            put_le(&mut buf, len, 2);
            put_bytes(&mut buf, bytes);
            proof {
                assert(c.members.take(i + 1).drop_last() =~= c.members.take(i as int));
                assert(c.members.take(i + 1).last() == m@);
                assert(buf@ =~= before + member_bytes(m@));
                assert(buf@ =~= head + members_bytes(c.members.take(i + 1)));
            }
            i = i + 1;
        }
        proof {
            assert(c.members.take(i as int) =~= c.members);
        }
        buf
    }

    /// Read the configuration that `payload` spells.
    pub fn decode(payload: &[u8]) -> (r: Result<Self, String>)
        ensures
            match (r, parse_config(payload@)) {
                (Ok(c), Ok(v)) => c@ == v,
                (Err(e), Err(t)) => e@ == t,
                _ => false,
            },
    {
        proof {
            reveal_strlit("truncated ");
            reveal_strlit("group_id");
            reveal_strlit("truncated group_id");
            reveal_strlit("term");
            reveal_strlit("truncated term");
            reveal_strlit("member_count");
            reveal_strlit("truncated member_count");
            assert("truncated "@ + "group_id"@ =~= "truncated group_id"@);
            assert("truncated "@ + "term"@ =~= "truncated term"@);
            assert("truncated "@ + "member_count"@ =~= "truncated member_count"@);
            lemma_pow256_values();
        }
        if payload.len() < 8 {
            return Err(truncated("group_id"));
        }
        let group_id: u64 = get_le(payload, 0, 8);
        if payload.len() < 16 {
            return Err(truncated("term"));
        }
        let term: u64 = get_le(payload, 8, 8);
        if payload.len() < 20 {
            return Err(truncated("member_count"));
        }
        let count: u64 = get_le(payload, 16, 4);
        let mut members: Vec<PxGroupMember> = Vec::new();
        let mut off: usize = 20;
        let mut i: u64 = 0;
        let ghost all = parse_members(payload@.skip(20), count as nat);
        proof {
            if all is Ok {
                assert(members_view(members@) + all->Ok_0 =~= all->Ok_0);
            }
        }
        while i < count
            invariant
                i <= count,
                off <= payload@.len(),
                payload@.len() >= 20,
                count == le_value(payload@.subrange(16, 20)),
                group_id == le_value(payload@.subrange(0, 8)),
                term == le_value(payload@.subrange(8, 16)),
                all == parse_members(payload@.skip(20), count as nat),
                match (all, parse_members(payload@.skip(off as int), (count - i) as nat)) {
                    (Ok(a), Ok(rest)) => a == members_view(members@) + rest,
                    (Err(a), Err(b)) => a == b,
                    _ => false,
                },
            decreases count - i,
        {
            let ghost before = members@;
            match parse_member_at(payload, off) {
                Err(e) => {
                    return Err(e);
                },
                Ok((m, next)) => {
                    let ghost v = m@;
                    members.push(m);
                    proof {
                        assert(payload@.skip(off as int).skip(next - off) =~= payload@.skip(
                            next as int,
                        ));
                        let rest = parse_members(
                            payload@.skip(next as int),
                            (count - i - 1) as nat,
                        );
                        if rest is Ok {
                            assert(members_view(members@) + rest->Ok_0 =~= members_view(before) + (
                            seq![v] + rest->Ok_0));
                        }
                    }
                    off = next;
                },
            }
            i = i + 1;
        }
        proof {
            assert(members_view(members@) + Seq::<MemberView>::empty() =~= members_view(members@));
        }
        Ok(PxGroupConfig { group_id, term, members })
    }

    /// Number of voting members.
    pub open spec fn voters(members: Seq<MemberView>) -> nat
        decreases members.len(),
    {
        if members.len() == 0 {
            0
        } else {
            Self::voters(members.drop_last()) + if members.last().voting {
                1nat
            } else {
                0
            }
        }
    }

    /// Number of voting members.
    pub fn voting_count(&self) -> (n: usize)
        ensures
            n == Self::voters(self@.members),
            n <= self.members.len(),
    {
        let ghost m = self@.members;
        let mut n: usize = 0;
        let mut i: usize = 0;
        proof {
            assert(m.take(0) =~= Seq::empty());
        }
        while i < self.members.len()
            invariant
                i <= self.members.len(),
                m == self@.members,
                n <= i,
                n == Self::voters(m.take(i as int)),
            decreases self.members.len() - i,
        {
            proof {
                assert(m.take(i + 1).drop_last() =~= m.take(i as int));
            }
            if self.members[i].voting {
                n = n + 1;
            }
            i = i + 1;
        }
        proof {
            assert(m.take(i as int) =~= m);
        }
        n
    }

    /// Quorum of this configuration: a majority of the voting members, or `0`
    /// if there are none.
    pub fn quorum(&self) -> (q: usize)
        ensures
            q == if Self::voters(self@.members) == 0 {
                0
            } else {
                Self::voters(self@.members) / 2 + 1
            },
    {
        let n: usize = self.voting_count();
        if n == 0 {
            return 0;
        }
        n / 2 + 1
    }
}

impl Default for PxGroupConfig {
    fn default() -> (c: Self)
        ensures
            c.group_id == 0,
            c.term == 0,
            c.members@ == Seq::<PxGroupMember>::empty(),
    {
        PxGroupConfig { group_id: 0, term: 0, members: Vec::new() }
    }
}

// ── Reading back ─────────────────────────────────────────────────
/// The endpoint's length fits the two bytes that the byte form has for it.
pub open spec fn member_fits(m: MemberView) -> bool {
    encode_utf8(m.endpoint).len() <= u16::MAX
}

/// The byte forms of members, read from the front.
proof fn lemma_members_bytes_front(m: Seq<MemberView>)
    requires
        m.len() > 0,
    ensures
        members_bytes(m) == member_bytes(m[0]) + members_bytes(m.drop_first()),
    decreases m.len(),
{
    if m.len() == 1 {
        assert(m.drop_last() =~= Seq::empty());
        assert(m.drop_first() =~= Seq::empty());
        assert(members_bytes(m) =~= member_bytes(m[0]) + members_bytes(m.drop_first()));
    } else {
        lemma_members_bytes_front(m.drop_last());
        assert(m.drop_last().drop_first() =~= m.drop_first().drop_last());
        assert(members_bytes(m) =~= member_bytes(m[0]) + members_bytes(m.drop_first()));
    }
}

proof fn lemma_parse_member_reads_back(m: MemberView, rest: Seq<u8>)
    requires
        member_fits(m),
    ensures
        parse_member(member_bytes(m) + rest) == Ok::<(MemberView, int), Seq<char>>(
            (m, member_bytes(m).len() as int),
        ),
        (member_bytes(m) + rest).skip(member_bytes(m).len() as int) == rest,
{
    reveal(parse_member);
    let s = member_bytes(m) + rest;
    let bytes = encode_utf8(m.endpoint);
    let len = bytes.len() as int;
    lemma_pow256_values();
    lemma_le_bytes_len(m.replica_id as nat, 8);
    lemma_le_bytes_len(len as nat, 2);
    le_value_reads_back_le_bytes(m.replica_id as nat, 8);
    le_value_reads_back_le_bytes(len as nat, 2);
    vstd::utf8::encode_utf8_valid_utf8(m.endpoint);
    vstd::utf8::encode_utf8_decode_utf8(m.endpoint);
    assert(s.subrange(0, 8) =~= le_bytes(m.replica_id as nat, 8));
    assert(s.subrange(9, 11) =~= le_bytes(len as nat, 2));
    assert(s.subrange(11, 11 + len) =~= bytes);
    assert(s.skip(member_bytes(m).len() as int) =~= rest);
}

proof fn lemma_parse_members_reads_back(m: Seq<MemberView>)
    requires
        forall|i: int| 0 <= i < m.len() ==> member_fits(#[trigger] m[i]),
    ensures
        parse_members(members_bytes(m), m.len()) == Ok::<Seq<MemberView>, Seq<char>>(m),
    decreases m.len(),
{
    if m.len() == 0 {
        assert(m =~= Seq::empty());
    } else {
        let tail = m.drop_first();
        assert(member_fits(m[0]));
        assert forall|i: int| 0 <= i < tail.len() implies member_fits(#[trigger] tail[i]) by {
            assert(tail[i] == m[i + 1]);
        }
        lemma_members_bytes_front(m);
        lemma_parse_members_reads_back(tail);
        lemma_parse_member_reads_back(m[0], members_bytes(tail));
        assert(m =~= seq![m[0]] + tail);
    }
}

/// Decoding gives back the configuration that was encoded, as long as every
/// endpoint fits the two bytes of its length and the number of members fits
/// the four bytes of the count.
pub proof fn config_reads_back(c: ConfigView)
    requires
        c.members.len() <= u32::MAX,
        forall|i: int| 0 <= i < c.members.len() ==> member_fits(#[trigger] c.members[i]),
    ensures
        parse_config(config_bytes(c)) == Ok::<ConfigView, Seq<char>>(c),
{
    let s = config_bytes(c);
    let n = c.members.len();
    lemma_pow256_values();
    lemma_le_bytes_len(c.group_id as nat, 8);
    lemma_le_bytes_len(c.term as nat, 8);
    lemma_le_bytes_len(n, 4);
    le_value_reads_back_le_bytes(c.group_id as nat, 8);
    le_value_reads_back_le_bytes(c.term as nat, 8);
    le_value_reads_back_le_bytes(n, 4);
    assert(s.subrange(0, 8) =~= le_bytes(c.group_id as nat, 8));
    assert(s.subrange(8, 16) =~= le_bytes(c.term as nat, 8));
    assert(s.subrange(16, 20) =~= le_bytes(n, 4));
    assert(s.skip(20) =~= members_bytes(c.members));
    lemma_parse_members_reads_back(c.members);
}

// ── Truncated configurations ─────────────────────────────────────
/// The text says that something is cut off.
pub open spec fn says_truncated(text: Seq<char>) -> bool {
    "truncated "@.is_prefix_of(text)
}

proof fn lemma_truncated_texts()
    ensures
        says_truncated("truncated group_id"@),
        says_truncated("truncated term"@),
        says_truncated("truncated member_count"@),
        says_truncated("truncated replica_id"@),
        says_truncated("truncated voting"@),
        says_truncated("truncated endpoint_len"@),
        says_truncated("truncated endpoint"@),
{
    reveal_strlit("truncated ");
    reveal_strlit("truncated group_id");
    reveal_strlit("truncated term");
    reveal_strlit("truncated member_count");
    reveal_strlit("truncated replica_id");
    reveal_strlit("truncated voting");
    reveal_strlit("truncated endpoint_len");
    reveal_strlit("truncated endpoint");
    let front = "truncated "@;
    assert("truncated group_id"@.take(10) =~= front);
    assert("truncated term"@.take(10) =~= front);
    assert("truncated member_count"@.take(10) =~= front);
    assert("truncated replica_id"@.take(10) =~= front);
    assert("truncated voting"@.take(10) =~= front);
    assert("truncated endpoint_len"@.take(10) =~= front);
    assert("truncated endpoint"@.take(10) =~= front);
}

proof fn lemma_cut_member_is_refused(m: MemberView, k: int)
    requires
        member_fits(m),
        0 <= k < member_bytes(m).len(),
    ensures
        parse_member(member_bytes(m).take(k)) matches Err(e) && says_truncated(e),
{
    reveal(parse_member);
    lemma_truncated_texts();
    let s = member_bytes(m).take(k);
    let len = encode_utf8(m.endpoint).len();
    lemma_pow256_values();
    lemma_le_bytes_len(m.replica_id as nat, 8);
    lemma_le_bytes_len(len, 2);
    le_value_reads_back_le_bytes(len, 2);
    if k >= 11 {
        assert(s.subrange(9, 11) =~= le_bytes(len, 2));
    }
}

proof fn lemma_cut_members_are_refused(m: Seq<MemberView>, k: int)
    requires
        forall|i: int| 0 <= i < m.len() ==> member_fits(#[trigger] m[i]),
        0 <= k < members_bytes(m).len(),
    ensures
        parse_members(members_bytes(m).take(k), m.len()) matches Err(e) && says_truncated(e),
    decreases m.len(),
{
    if m.len() > 0 {
        let first = member_bytes(m[0]);
        let tail = m.drop_first();
        let rest = members_bytes(tail);
        assert(member_fits(m[0]));
        lemma_members_bytes_front(m);
        if k < first.len() {
            assert(members_bytes(m).take(k) =~= first.take(k));
            lemma_cut_member_is_refused(m[0], k);
        } else {
            let left = k - first.len();
            assert forall|i: int| 0 <= i < tail.len() implies member_fits(#[trigger] tail[i]) by {
                assert(tail[i] == m[i + 1]);
            }
            assert(members_bytes(m).take(k) =~= first + rest.take(left));
            lemma_parse_member_reads_back(m[0], rest.take(left));
            lemma_cut_members_are_refused(tail, left);
        }
    }
}

/// No strict prefix of the byte form of a configuration can be decoded: it is
/// refused as truncated, under the same bounds under which the whole reads back.
pub proof fn cut_config_is_refused(c: ConfigView, k: int)
    requires
        c.members.len() <= u32::MAX,
        forall|i: int| 0 <= i < c.members.len() ==> member_fits(#[trigger] c.members[i]),
        0 <= k < config_bytes(c).len(),
    ensures
        parse_config(config_bytes(c).take(k)) matches Err(e) && says_truncated(e),
{
    let s = config_bytes(c).take(k);
    let n = c.members.len();
    lemma_truncated_texts();
    lemma_pow256_values();
    lemma_le_bytes_len(c.group_id as nat, 8);
    lemma_le_bytes_len(c.term as nat, 8);
    lemma_le_bytes_len(n, 4);
    le_value_reads_back_le_bytes(n, 4);
    if k >= 20 {
        assert(s.subrange(16, 20) =~= le_bytes(n, 4));
        assert(s.skip(20) =~= members_bytes(c.members).take(k - 20));
        lemma_cut_members_are_refused(c.members, k - 20);
    }
}

// ── The configuration file of a group ────────────────────────────
/// Where one group's configuration is kept: a file of its own in a common
/// directory.
#[derive(Debug)]
pub struct GroupConfigStore {
    config_path: String,
}

/// Name of a group's configuration file.
pub open spec fn config_file_name(store_id: u64, group_id: u64) -> Seq<char> {
    "store"@ + dec(store_id as nat) + "_group"@ + dec(group_id as nat) + ".bin"@
}

impl GroupConfigStore {
    /// Path of the configuration file.
    pub closed spec fn spec_path(&self) -> Seq<char> {
        self.config_path@
    }

    /// The store of one group's configuration under `config_root`.
    pub fn new(config_root: &str, store_id: u64, group_id: u64) -> (s: Self)
        ensures
            s.spec_path() == joined(config_root@, config_file_name(store_id, group_id)),
    {
        let sid: String = decimal(store_id);
        let gid: String = decimal(group_id);
        let mut name: String = concat3("store", sid.as_str(), "_group");
        name.append(gid.as_str());
        name.append(".bin");
        GroupConfigStore { config_path: join_path(config_root, name.as_str()) }
    }

    /// Path of the file that a new configuration is written to before it
    /// replaces the old one.
    pub fn tmp_path(&self) -> (p: String)
        ensures
            p@ == self.spec_path() + ".tmp"@,
    {
        concat2(self.config_path.as_str(), ".tmp")
    }

    /// The configuration in the file's content, or none if there is no file.
    pub fn loaded(&self, content: Option<Vec<u8>>) -> (r: Result<Option<PxGroupConfig>, String>)
        ensures
            match content {
                None => r matches Ok(None),
                Some(data) => match (r, parse_config(data@)) {
                    (Ok(Some(c)), Ok(v)) => c@ == v,
                    (Err(e), Err(t)) => e@ == t,
                    _ => false,
                },
            },
    {
        match content {
            None => Ok(None),
            Some(data) => match PxGroupConfig::decode(data.as_slice()) {
                Ok(c) => Ok(Some(c)),
                Err(e) => Err(e),
            },
        }
    }

    /// Path of the configuration file.
    pub fn path(&self) -> (p: &str)
        ensures
            p@ == self.spec_path(),
    {
        self.config_path.as_str()
    }
}

/// The voting members of a configuration are those that it marks as such.
pub proof fn voters_are_the_marked_members(members: Seq<MemberView>)
    ensures
        PxGroupConfig::voters(members) == members.filter(|m: MemberView| m.voting).len(),
    decreases members.len(),
{
    reveal(Seq::filter);
    if members.len() > 0 {
        voters_are_the_marked_members(members.drop_last());
    }
}

/// How a configuration stands in its file: the group, the term and the number
/// of members, and then each member with its id, its vote, and its endpoint
/// behind the endpoint's length.
pub proof fn configuration_is_laid_out(c: ConfigView)
    requires
        c.members.len() <= u32::MAX,
    ensures
        ({
            let s = config_bytes(c);
            &&& s.len() >= 20
            &&& le_value(s.subrange(0, 8)) == c.group_id
            &&& le_value(s.subrange(8, 16)) == c.term
            &&& le_value(s.subrange(16, 20)) == c.members.len()
            &&& s.skip(20) == members_bytes(c.members)
        }),
        forall|i: int| #![trigger c.members[i]]
            0 <= i < c.members.len() && member_fits(c.members[i]) ==> {
                let b = member_bytes(c.members[i]);
                let n = encode_utf8(c.members[i].endpoint).len() as int;
                &&& b.len() == 11 + n
                &&& le_value(b.subrange(0, 8)) == c.members[i].replica_id
                &&& b[8] == if c.members[i].voting {
                    1u8
                } else {
                    0u8
                }
                &&& le_value(b.subrange(9, 11)) == n
                &&& b.subrange(11, 11 + n) == encode_utf8(c.members[i].endpoint)
            },
{
    let s = config_bytes(c);
    let n = c.members.len();
    lemma_pow256_values();
    lemma_le_bytes_len(c.group_id as nat, 8);
    lemma_le_bytes_len(c.term as nat, 8);
    lemma_le_bytes_len(n, 4);
    le_value_reads_back_le_bytes(c.group_id as nat, 8);
    le_value_reads_back_le_bytes(c.term as nat, 8);
    le_value_reads_back_le_bytes(n, 4);
    assert(s.subrange(0, 8) =~= le_bytes(c.group_id as nat, 8));
    assert(s.subrange(8, 16) =~= le_bytes(c.term as nat, 8));
    assert(s.subrange(16, 20) =~= le_bytes(n, 4));
    assert(s.skip(20) =~= members_bytes(c.members));
    assert forall|i: int| #![trigger c.members[i]]
        0 <= i < c.members.len() && member_fits(c.members[i]) implies {
        let b = member_bytes(c.members[i]);
        let n = encode_utf8(c.members[i].endpoint).len() as int;
        &&& b.len() == 11 + n
        &&& le_value(b.subrange(0, 8)) == c.members[i].replica_id
        &&& b[8] == if c.members[i].voting {
            1u8
        } else {
            0u8
        }
        &&& le_value(b.subrange(9, 11)) == n
        &&& b.subrange(11, 11 + n) == encode_utf8(c.members[i].endpoint)
    } by {
        lemma_member_layout(c.members[i]);
    }
}

proof fn lemma_member_layout(m: MemberView)
    requires
        member_fits(m),
    ensures
        ({
            let b = member_bytes(m);
            let n = encode_utf8(m.endpoint).len() as int;
            &&& b.len() == 11 + n
            &&& le_value(b.subrange(0, 8)) == m.replica_id
            &&& b[8] == if m.voting {
                1u8
            } else {
                0u8
            }
            &&& le_value(b.subrange(9, 11)) == n
            &&& b.subrange(11, 11 + n) == encode_utf8(m.endpoint)
        }),
{
    let b = member_bytes(m);
    let n = encode_utf8(m.endpoint).len();
    lemma_pow256_values();
    lemma_le_bytes_len(m.replica_id as nat, 8);
    lemma_le_bytes_len(n, 2);
    le_value_reads_back_le_bytes(m.replica_id as nat, 8);
    le_value_reads_back_le_bytes(n, 2);
    assert(b.subrange(0, 8) =~= le_bytes(m.replica_id as nat, 8));
    assert(b.subrange(9, 11) =~= le_bytes(n, 2));
    assert(b.subrange(11, 11 + n as int) =~= encode_utf8(m.endpoint));
}

} // verus!
