//! The block policy: a JSON array of objects whose `"ip"` member names an
//! address to block, such as `[{"ip": "10.0.0.1"}, {"ip": "192.168.0.7"}]`.
//! Applying a policy adds each address that reads as IPv4 to the blocklist,
//! in order, and reports the entries that do not.
use crate::blocklist::{blockip, map_update, Blocklist, BLOCKLIST_MAX_ENTRIES};
use crate::ipv4::{create_ipv4_addr, dotted_quad, lemma_dotted_quad_injective, parse_ipv4, Ipv4Address};
use crate::firewall::{
    firewall_action, is_ipv4_frame, lemma_source_is_address, ETH_HDR_LEN, IPV4_HDR_LEN, XDP_DROP,
};
use vstd::prelude::*;
use vstd::utf8::encode_utf8;

verus! {

#[verifier::external_type_specification]
#[verifier::external_body]
pub struct ExJsonError(serde_json::Error);

/// What `serde_json` reads from the text of a policy: `None` when the text
/// is not JSON; `Some(None)` when the document is not an array; otherwise,
/// for each element in order, the text of its `"ip"` member when the
/// element is an object whose `"ip"` member is a string.
pub uninterp spec fn json_ip_fields(text: Seq<char>) -> Option<Option<Seq<Option<Seq<char>>>>>;

/// `s` can stand between quotes in JSON as it is: it holds no quote, no
/// backslash and no control character.
pub open spec fn plain_json_string(s: Seq<char>) -> bool {
    forall|i: int| 0 <= i < s.len() ==> #[trigger] s[i] != '"' && s[i] != '\\' && s[i] as u32 >= 0x20
}

/// Every text in `es` is a plain JSON string.
pub open spec fn plain_entries(es: Seq<Option<Seq<char>>>) -> bool {
    forall|i: int| 0 <= i < es.len() && #[trigger] es[i] is Some ==> plain_json_string(es[i]->0)
}

/// The compact JSON text of one policy element: `{"ip":"s"}` for an entry
/// `s`, and `{}` for an element without an address.
pub open spec fn policy_element_text(e: Option<Seq<char>>) -> Seq<char> {
    match e {
        Some(s) => seq!['{', '"', 'i', 'p', '"', ':', '"'] + s + seq!['"', '}'],
        None => seq!['{', '}'],
    }
}

/// The element texts of `es`, separated by commas.
pub open spec fn policy_elements_text(es: Seq<Option<Seq<char>>>) -> Seq<char>
    decreases es.len(),
{
    if es.len() == 0 {
        Seq::empty()
    } else if es.len() == 1 {
        policy_element_text(es[0])
    } else {
        policy_elements_text(es.drop_last()) + seq![','] + policy_element_text(es.last())
    }
}

/// The compact JSON text of a policy array with elements `es`.
pub open spec fn policy_text(es: Seq<Option<Seq<char>>>) -> Seq<char> {
    seq!['['] + policy_elements_text(es) + seq![']']
}

/// Parses `text` with `serde_json::from_str` into a `serde_json::Value`, and
/// takes from it, through `Value::as_array`, indexing by `"ip"` and
/// `Value::as_str`, the `"ip"` member of each element.
///
/// The contract claims that the outcome is the function `json_ip_fields`
/// of the text, and that a compact JSON array of elements `{"ip":"s"}` and
/// `{}` (with plain strings `s`) reads as one entry per element, in order:
/// `Some(s)` and `None`. What other JSON text `serde_json` accepts, and what
/// it reads from it, is not stated.
#[verifier::external_body]
fn ip_fields_from_json(text: &str) -> (r: Result<Option<Vec<Option<String>>>, serde_json::Error>)
    ensures
        r is Ok <==> json_ip_fields(text@) is Some,
        r matches Ok(f) ==> json_ip_fields(text@) == Some(f.deep_view()),
        r matches Ok(Some(f)) ==> forall|es: Seq<Option<Seq<char>>>|
            plain_entries(es) && text@ == #[trigger] policy_text(es) ==> f.deep_view() == es,
        r is Ok || !exists|es: Seq<Option<Seq<char>>>|
            plain_entries(es) && text@ == #[trigger] policy_text(es),
        r matches Ok(None) ==> !exists|es: Seq<Option<Seq<char>>>|
            plain_entries(es) && text@ == #[trigger] policy_text(es),
{
    let value: serde_json::Value = serde_json::from_str(text)?;
    Ok(value.as_array().map(|a| a.iter().map(|e| e["ip"].as_str().map(|s| s.to_string())).collect()))
}

/// A policy document as read.
#[derive(Debug)]
pub enum PolicyDocument {
    /// The document is JSON but not an array.
    NotArray,
    /// The `"ip"` member of each element, where it is a string.
    Entries(Vec<Option<String>>),
}

/// A policy text that could not be read.
#[derive(Clone, Copy, Debug, PartialEq, Eq, Structural)]
pub enum PolicyError {
    /// The text is not JSON.
    MalformedJson,
}

/// What became of one entry of a policy.
#[derive(Clone, Copy, Debug, PartialEq, Eq, Structural)]
pub enum EntryOutcome {
    /// The entry names this address (as a `u32` in host order); it was
    /// handed to the blocklist.
    Blocked(u32),
    /// The entry is not a dotted-decimal IPv4 address.
    InvalidAddress,
}

/// Reads the text of a policy.
pub fn load_policy(text: &str) -> (r: Result<PolicyDocument, PolicyError>)
    ensures
        r is Ok <==> json_ip_fields(text@) is Some,
        r matches Err(e) ==> e == PolicyError::MalformedJson,
        r matches Ok(d) ==> match json_ip_fields(text@).unwrap() {
            None => d is NotArray,
            Some(f) => d matches PolicyDocument::Entries(e) && e.deep_view() == f,
        },
        forall|es: Seq<Option<Seq<char>>>|
            plain_entries(es) && text@ == #[trigger] policy_text(es) ==> (r matches Ok(
                PolicyDocument::Entries(e),
            ) && e.deep_view() == es),
{
    match ip_fields_from_json(text) {
        Ok(Some(entries)) => Ok(PolicyDocument::Entries(entries)),
        Ok(None) => Ok(PolicyDocument::NotArray),
        Err(_) => Err(PolicyError::MalformedJson),
    }
}

/// The index of the first element without a string `"ip"` member, if any.
pub fn first_missing_ip(entries: &Vec<Option<String>>) -> (r: Option<usize>)
    ensures
        match r {
            Some(k) => k < entries@.len() && entries@[k as int] is None && forall|j: int|
                0 <= j < k ==> #[trigger] entries@[j] is Some,
            None => forall|j: int| 0 <= j < entries@.len() ==> #[trigger] entries@[j] is Some,
        },
{
    let mut i: usize = 0;
    while i < entries.len()
        invariant
            i <= entries@.len(),
            forall|j: int| 0 <= j < i ==> #[trigger] entries@[j] is Some,
        decreases entries@.len() - i,
    {
        if entries[i].is_none() {
            return Some(i);
        }
        i = i + 1;
    }
    None
}

/// The address that the text with characters `chars` names, if it is the
/// dotted-decimal text of an address.
pub open spec fn text_address(chars: Seq<char>) -> Option<Ipv4Address> {
    if exists|ip: Ipv4Address| dotted_quad(ip) == encode_utf8(chars) {
        Some(choose|ip: Ipv4Address| dotted_quad(ip) == encode_utf8(chars))
    } else {
        None
    }
}

/// What becomes of an entry with characters `chars`.
pub open spec fn entry_outcome(chars: Seq<char>) -> EntryOutcome {
    match text_address(chars) {
        Some(ip) => EntryOutcome::Blocked(ip.bits() as u32),
        None => EntryOutcome::InvalidAddress,
    }
}

/// The table after applying the entries `texts` in order to table `m`.
pub open spec fn apply_entries(m: Map<u32, u32>, texts: Seq<Seq<char>>) -> Map<u32, u32>
    decreases texts.len(),
{
    if texts.len() == 0 {
        m
    } else {
        let before = apply_entries(m, texts.drop_last());
        match entry_outcome(texts.last()) {
            EntryOutcome::Blocked(k) => map_update(before, k, 0),
            EntryOutcome::InvalidAddress => before,
        }
    }
}

/// The texts of the entries, which all hold a string.
pub open spec fn entry_texts(entries: Seq<Option<String>>) -> Seq<Seq<char>> {
    entries.map_values(|e: Option<String>| e.unwrap()@)
}

/// Reads one entry as an address.
fn read_entry(text: &String) -> (r: Option<Ipv4Address>)
    ensures
        r == text_address(text@),
{
    let s = text.as_str();
    match parse_ipv4(s) {
        Ok(ip) => {
            proof {
                assert(dotted_quad(ip) == encode_utf8(text@));
                let c = choose|x: Ipv4Address| dotted_quad(x) == encode_utf8(text@);
                lemma_dotted_quad_injective(c, ip);
            }
            Some(ip)
        },
        Err(_) => None,
    }
}

/// Applies the entries of a policy in order: each entry that reads as an
/// IPv4 address is added to the table, the others are reported invalid.
/// All entries hold a string (an element without one stops the policy
/// before this point).
pub fn apply_policy(list: &mut Blocklist, entries: &[Option<String>]) -> (r: Vec<EntryOutcome>)
    requires
        old(list).wf(),
        forall|j: int| 0 <= j < entries@.len() ==> #[trigger] entries@[j] is Some,
    ensures
        final(list).wf(),
        r@.len() == entries@.len(),
        forall|j: int|
            0 <= j < entries@.len() ==> #[trigger] r@[j] == entry_outcome(entries@[j].unwrap()@),
        final(list)@ == apply_entries(old(list)@, entry_texts(entries@)),
{
    let mut outcomes: Vec<EntryOutcome> = Vec::new();
    let mut i: usize = 0;
    while i < entries.len()
        invariant
            i <= entries@.len(),
            forall|j: int| 0 <= j < entries@.len() ==> #[trigger] entries@[j] is Some,
            list.wf(),
            outcomes@.len() == i,
            forall|j: int|
                0 <= j < i ==> #[trigger] outcomes@[j] == entry_outcome(entries@[j].unwrap()@),
            list@ == apply_entries(old(list)@, entry_texts(entries@).take(i as int)),
        decreases entries@.len() - i,
    {
        let ghost texts = entry_texts(entries@);
        assert(texts.take(i + 1).drop_last() =~= texts.take(i as int));
        if let Some(text) = &entries[i] {
            match read_entry(text) {
                Some(ip) => {
                    let value = match create_ipv4_addr(ip) {
                        Ok(v) => v,
                    };
                    let _ = blockip(list, value);
                    outcomes.push(EntryOutcome::Blocked(value));
                },
                None => {
                    outcomes.push(EntryOutcome::InvalidAddress);
                },
            }
        }
        i = i + 1;
    }
    assert(entry_texts(entries@).take(entries@.len() as int) =~= entry_texts(entries@));
    outcomes
}

/// Applying a policy never removes an address from the table.
pub proof fn lemma_apply_keeps_entries(m: Map<u32, u32>, texts: Seq<Seq<char>>, k: u32)
    requires
        m.contains_key(k),
    ensures
        apply_entries(m, texts).contains_key(k),
    decreases texts.len(),
{
    if texts.len() > 0 {
        lemma_apply_keeps_entries(m, texts.drop_last(), k);
    }
}

/// Applying `n` entries leaves a finite table with at most `n` more entries.
pub proof fn lemma_apply_size(m: Map<u32, u32>, texts: Seq<Seq<char>>)
    requires
        m.dom().finite(),
    ensures
        apply_entries(m, texts).dom().finite(),
        apply_entries(m, texts).len() <= m.len() + texts.len(),
    decreases texts.len(),
{
    if texts.len() > 0 {
        lemma_apply_size(m, texts.drop_last());
        let before = apply_entries(m, texts.drop_last());
        if let EntryOutcome::Blocked(k) = entry_outcome(texts.last()) {
            if before.contains_key(k) {
                assert(before.insert(k, 0).dom() =~= before.dom());
            }
        }
    }
}

/// When the table has room for every entry of a policy, every address that
/// the policy names is in the table after the policy is applied.
pub proof fn lemma_apply_blocks_named(m: Map<u32, u32>, texts: Seq<Seq<char>>, i: int)
    requires
        m.dom().finite(),
        m.len() + texts.len() <= BLOCKLIST_MAX_ENTRIES,
        0 <= i < texts.len(),
        entry_outcome(texts[i]) is Blocked,
    ensures
        apply_entries(m, texts).contains_key(entry_outcome(texts[i])->Blocked_0),
    decreases texts.len(),
{
    let before = apply_entries(m, texts.drop_last());
    lemma_apply_size(m, texts.drop_last());
    if i == texts.len() - 1 {
    } else {
        lemma_apply_blocks_named(m, texts.drop_last(), i);
        let k = entry_outcome(texts[i])->Blocked_0;
        if let EntryOutcome::Blocked(k2) = entry_outcome(texts.last()) {
            assert(map_update(before, k2, 0).contains_key(k));
        }
    }
}

/// Applying a policy adds only addresses that the policy names.
pub proof fn lemma_apply_adds_only_named(m: Map<u32, u32>, texts: Seq<Seq<char>>, k: u32)
    requires
        apply_entries(m, texts).contains_key(k),
    ensures
        m.contains_key(k) || exists|i: int|
            0 <= i < texts.len() && #[trigger] entry_outcome(texts[i]) == EntryOutcome::Blocked(k),
    decreases texts.len(),
{
    if texts.len() > 0 {
        let before = apply_entries(m, texts.drop_last());
        if before.contains_key(k) {
            lemma_apply_adds_only_named(m, texts.drop_last(), k);
            if !m.contains_key(k) {
                let i = choose|i: int|
                    0 <= i < texts.drop_last().len() && #[trigger] entry_outcome(
                        texts.drop_last()[i],
                    ) == EntryOutcome::Blocked(k);
                assert(texts[i] == texts.drop_last()[i]);
            }
        } else {
            assert(entry_outcome(texts[texts.len() - 1]) == EntryOutcome::Blocked(k));
        }
    }
}

/// When the table has room for every entry of a policy, every IPv4 frame
/// whose source is an address that the policy names is dropped once the
/// policy has been applied.
pub proof fn lemma_policy_address_dropped(
    m: Map<u32, u32>,
    texts: Seq<Seq<char>>,
    i: int,
    ip: Ipv4Address,
    p: Seq<u8>,
)
    requires
        m.dom().finite(),
        m.len() + texts.len() <= BLOCKLIST_MAX_ENTRIES,
        0 <= i < texts.len(),
        text_address(texts[i]) == Some(ip),
        p.len() >= ETH_HDR_LEN + IPV4_HDR_LEN,
        is_ipv4_frame(p),
        p.subrange(26, 30) == ip.octet_seq(),
    ensures
        firewall_action(p, apply_entries(m, texts).dom()) == XDP_DROP,
{
    lemma_apply_blocks_named(m, texts, i);
    lemma_source_is_address(p, ip);
}

/// An entry whose text is not the dotted-decimal text of any address is
/// reported invalid and leaves the table as it was.
pub proof fn lemma_unreadable_entry_invalid(m: Map<u32, u32>, chars: Seq<char>)
    requires
        forall|ip: Ipv4Address| dotted_quad(ip) != encode_utf8(chars),
    ensures
        entry_outcome(chars) == EntryOutcome::InvalidAddress,
        apply_entries(m, seq![chars]) == m,
{
    assert(seq![chars].drop_last() =~= Seq::<Seq<char>>::empty());
    assert(apply_entries(m, seq![chars].drop_last()) == m);
    assert(seq![chars].last() == chars);
}

/// An entry whose text is the dotted-decimal text of `a.b.c.d` is reported
/// blocked with the value `a * 2^24 + b * 2^16 + c * 2^8 + d`, and that value
/// is then in the table, with 0, when the table had room.
pub proof fn lemma_readable_entry_blocked(m: Map<u32, u32>, chars: Seq<char>, ip: Ipv4Address)
    requires
        dotted_quad(ip) == encode_utf8(chars),
    ensures
        entry_outcome(chars) == EntryOutcome::Blocked(
            (ip.a as int * 16777216 + ip.b as int * 65536 + ip.c as int * 256 + ip.d as int) as u32,
        ),
        m.contains_key(entry_outcome(chars)->Blocked_0) || m.len() < BLOCKLIST_MAX_ENTRIES
            ==> apply_entries(m, seq![chars]) == m.insert(entry_outcome(chars)->Blocked_0, 0),
{
    let c = choose|x: Ipv4Address| dotted_quad(x) == encode_utf8(chars);
    lemma_dotted_quad_injective(c, ip);
    assert(seq![chars].drop_last() =~= Seq::<Seq<char>>::empty());
    assert(apply_entries(m, seq![chars].drop_last()) == m);
    assert(seq![chars].last() == chars);
}

/// A policy none of whose entries reads as an address leaves the table as it was.
pub proof fn lemma_unreadable_policy_changes_nothing(m: Map<u32, u32>, texts: Seq<Seq<char>>)
    requires
        forall|i: int, ip: Ipv4Address|
            0 <= i < texts.len() ==> #[trigger] dotted_quad(ip) != encode_utf8(#[trigger] texts[i]),
    ensures
        apply_entries(m, texts) == m,
    decreases texts.len(),
{
    if texts.len() > 0 {
        lemma_unreadable_policy_changes_nothing(m, texts.drop_last());
        let last = texts[texts.len() - 1];
        assert forall|ip: Ipv4Address| dotted_quad(ip) != encode_utf8(last) by {
            assert(dotted_quad(ip) != encode_utf8(texts[texts.len() - 1]));
        }
        lemma_unreadable_entry_invalid(m, last);
    }
}

} // verus!
