//! Tags: sets of workspaces, as the bits of a number.

use vstd::prelude::*;

use crate::ipc::WorkspaceState;

verus! {

/// The number of workspaces that are shown.
pub const WORKSPACES: u32 = 9;

/// The tag of a workspace, counted from one.
pub open spec fn tag_mask(id: u64) -> Option<u32> {
    if 1 <= id <= 32 {
        Some(1u32 << ((id - 1) as u32))
    } else {
        None
    }
}

/// The tag of a workspace, counted from one. There are as many tags as bits in a number.
pub fn workspace_id_to_tag_mask(id: u64) -> (r: Option<u32>)
    ensures
        r == tag_mask(id),
{
    if id == 0 || id > 32 {
        return None;
    }
    Some(1u32 << ((id - 1) as u32))
}

/// Whether the tag at a bit is among tags.
pub open spec fn has_tag(tags: u32, bit: u32) -> bool {
    tags & (1u32 << bit) != 0
}

/// The workspace at a bit.
pub open spec fn workspace_at(focused_tags: u32, occupied_tags: u32, bit: int) -> WorkspaceState {
    WorkspaceState {
        id: (bit + 1) as u64,
        index: (bit + 1) as u32,
        active: has_tag(focused_tags, bit as u32),
        occupied: has_tag(occupied_tags, bit as u32),
    }
}

/// The workspaces that are shown: active where their tag is focused, and occupied where it is on a
/// view.
pub fn tags_to_workspace_states(focused_tags: u32, occupied_tags: u32) -> (r: Vec<WorkspaceState>)
    ensures
        r@ == Seq::new(
            WORKSPACES as nat,
            |bit: int| workspace_at(focused_tags, occupied_tags, bit),
        ),
        r@.len() == 9,
        forall|i: int| 0 <= i < r@.len() ==> (#[trigger] r@[i]).id == i + 1 && r@[i].index == i + 1,
{
    let mut r: Vec<WorkspaceState> = Vec::new();
    let mut i: u32 = 0;
    while i < WORKSPACES
        invariant
            i <= WORKSPACES,
            r@.len() == i,
            forall|j: int|
                0 <= j < i ==> #[trigger] r@[j] == workspace_at(focused_tags, occupied_tags, j),
        decreases WORKSPACES - i,
    {
        let bit: u32 = 1u32 << i;
        r.push(
            WorkspaceState {
                id: (i + 1) as u64,
                index: i + 1,
                active: focused_tags & bit != 0,
                occupied: occupied_tags & bit != 0,
            },
        );
        i += 1;
    }
    r
}

/// Switching to a workspace makes that one active and no other: where its tag alone is focused, the
/// workspace at a bit is active exactly if it is the one that was asked for.
pub proof fn law_switching_activates_one(id: u64, occupied_tags: u32, bit: int)
    requires
        1 <= id <= 32,
        0 <= bit < WORKSPACES,
    ensures
        tag_mask(id) is Some,
        workspace_at(tag_mask(id)->0, occupied_tags, bit).active == (workspace_at(
            tag_mask(id)->0,
            occupied_tags,
            bit,
        ).id == id),
{
    let a = (id - 1) as u32;
    let b = bit as u32;
    assert(((1u32 << a) & (1u32 << b) != 0) == (a == b)) by (bit_vector)
        requires
            a < 32,
            b < 32,
    ;
}

// ---------------------------------------------------------------------------
// Tags of views
// ---------------------------------------------------------------------------

/// The number that four bytes stand for, the first of them the lowest or the highest.
pub open spec fn word(a: u8, b: u8, c: u8, d: u8, little: bool) -> u32 {
    if little {
        (a + 0x100 * b + 0x1_0000 * c + 0x100_0000 * d) as u32
    } else {
        (d + 0x100 * c + 0x1_0000 * b + 0x100_0000 * a) as u32
    }
}

/// The number at position `k` of a list of numbers.
pub open spec fn word_at(raw: Seq<u8>, k: int, little: bool) -> u32 {
    word(raw[4 * k], raw[4 * k + 1], raw[4 * k + 2], raw[4 * k + 3], little)
}

/// The union of the first `n` numbers of a list.
pub open spec fn union_of(raw: Seq<u8>, n: nat, little: bool) -> u32
    decreases n,
{
    if n == 0 {
        0
    } else {
        union_of(raw, (n - 1) as nat, little) | word_at(raw, n - 1, little)
    }
}

/// The union of all numbers of a list. Bytes that make no whole number are ignored.
pub open spec fn tags_of_views(raw: Seq<u8>, little: bool) -> u32 {
    union_of(raw, raw.len() / 4, little)
}

/// The union of all numbers of a list, whose first byte is the lowest or the highest.
pub fn decode_tags(raw: &[u8], little: bool) -> (r: u32)
    ensures
        r == tags_of_views(raw@, little),
{
    let len: usize = raw.len();
    let n: usize = len / 4;
    let mut mask: u32 = 0;
    let mut i: usize = 0;
    while i < n
        invariant
            len == raw@.len(),
            n == len / 4,
            i <= n,
            mask == union_of(raw@, i as nat, little),
        decreases n - i,
    {
        let at: usize = 4 * i;
        let a: u32 = raw[at] as u32;
        let b: u32 = raw[at + 1] as u32;
        let c: u32 = raw[at + 2] as u32;
        let d: u32 = raw[at + 3] as u32;
        let tags: u32 = if little {
            a + 0x100 * b + 0x1_0000 * c + 0x100_0000 * d
        } else {
            d + 0x100 * c + 0x1_0000 * b + 0x100_0000 * a
        };
        proof {
            assert(tags == word_at(raw@, i as int, little));
        }
        mask = mask | tags;
        i += 1;
    }
    mask
}

/// Calls `u32::from_ne_bytes`. The number is that of the byte order of the machine, which is one of
/// the two.
#[verifier::external_body]
fn native_word(bytes: [u8; 4]) -> (r: u32)
    ensures
        r == word(bytes@[0], bytes@[1], bytes@[2], bytes@[3], true) || r == word(
            bytes@[0],
            bytes@[1],
            bytes@[2],
            bytes@[3],
            false,
        ),
{
    u32::from_ne_bytes(bytes)
}

/// The bytes by which the byte order of the machine is told.
pub open spec fn probe_bytes() -> Seq<u8> {
    seq![1, 0, 0, 0]
}

/// Whether the machine, asked for the number that bytes stand for, may have answered `number`.
pub closed spec fn machine_answers(bytes: Seq<u8>, number: u32) -> bool {
    exists|b: [u8; 4]| b@ == bytes && #[trigger] call_ensures(native_word, (b,), number)
}

/// The tags of the views. `probe` is the number that the machine makes of the bytes 1, 0, 0 and 0: it
/// is one exactly if the first byte is the lowest.
pub fn decode_probed(raw: &[u8], probe: u32) -> (r: u32)
    ensures
        r == tags_of_views(raw@, probe == 1),
{
    decode_tags(raw, probe == 1)
}

/// The tags of the views, of a list of numbers in the byte order of the machine. Which of the two
/// orders that is depends on the machine: it is told by the number that the machine makes of the
/// bytes 1, 0, 0 and 0.
pub fn decode_view_tags_mask(raw: &[u8]) -> (r: u32)
    ensures
        exists|probe: u32| #[trigger]
            machine_answers(probe_bytes(), probe) && r == tags_of_views(raw@, probe == 1),
        r == tags_of_views(raw@, true) || r == tags_of_views(raw@, false),
{
    let bytes: [u8; 4] = [1, 0, 0, 0];
    let probe: u32 = native_word(bytes);
    proof {
        assert(bytes@ =~= probe_bytes());
        assert(call_ensures(native_word, (bytes,), probe));
        assert(machine_answers(probe_bytes(), probe));
    }
    decode_probed(raw, probe)
}

/// Whatever bytes the machine is asked about, it answers in one of the two byte orders.
pub proof fn law_machine_has_a_byte_order(bytes: Seq<u8>, number: u32)
    requires
        machine_answers(bytes, number),
    ensures
        exists|little: bool| number == #[trigger] word(bytes[0], bytes[1], bytes[2], bytes[3], little),
{
    let b = choose|b: [u8; 4]| b@ == bytes && #[trigger] call_ensures(native_word, (b,), number);
    assert(number == word(b@[0], b@[1], b@[2], b@[3], true) || number == word(
        b@[0],
        b@[1],
        b@[2],
        b@[3],
        false,
    ));
}

/// The bytes of the probe tell the byte orders apart: an answer of one is that of a machine whose first
/// byte is the lowest and of no other, and any other answer is that of a machine whose first byte is
/// the highest.
pub proof fn law_probe_tells_the_byte_order(probe: u32)
    requires
        machine_answers(probe_bytes(), probe),
    ensures
        probe == word(1, 0, 0, 0, probe == 1),
        probe != word(1, 0, 0, 0, probe != 1),
{
    law_machine_has_a_byte_order(probe_bytes(), probe);
}

proof fn lemma_union_has(raw: Seq<u8>, n: nat, k: int, bit: u32, little: bool)
    requires
        0 <= k < n,
        bit < 32,
        has_tag(word_at(raw, k, little), bit),
    ensures
        has_tag(union_of(raw, n, little), bit),
    decreases n,
{
    let rest = union_of(raw, (n - 1) as nat, little);
    let last = word_at(raw, n - 1, little);
    if k < n - 1 {
        lemma_union_has(raw, (n - 1) as nat, k, bit, little);
        assert(rest & (1u32 << bit) != 0 ==> (rest | last) & (1u32 << bit) != 0) by (bit_vector);
    } else {
        assert(last & (1u32 << bit) != 0 ==> (rest | last) & (1u32 << bit) != 0) by (bit_vector);
    }
}

proof fn lemma_union_only(raw: Seq<u8>, n: nat, bit: u32, little: bool)
    requires
        bit < 32,
        has_tag(union_of(raw, n, little), bit),
    ensures
        exists|k: int| 0 <= k < n && has_tag(#[trigger] word_at(raw, k, little), bit),
    decreases n,
{
    if n == 0 {
        assert(0u32 & (1u32 << bit) == 0) by (bit_vector);
    } else {
        let rest = union_of(raw, (n - 1) as nat, little);
        let last = word_at(raw, n - 1, little);
        assert((rest | last) & (1u32 << bit) != 0 ==> rest & (1u32 << bit) != 0 || last & (1u32
            << bit) != 0) by (bit_vector);
        if has_tag(last, bit) {
            assert(has_tag(word_at(raw, n - 1, little), bit));
        } else {
            lemma_union_only(raw, (n - 1) as nat, bit, little);
        }
    }
}

/// A workspace is occupied exactly if a view is on it: a tag is in the union exactly if it is in one
/// of the numbers.
pub proof fn law_union_has_the_tags_of_all_views(raw: Seq<u8>, bit: u32, little: bool)
    requires
        bit < 32,
    ensures
        has_tag(tags_of_views(raw, little), bit) <==> exists|k: int|
            0 <= k < raw.len() / 4 && has_tag(#[trigger] word_at(raw, k, little), bit),
{
    let n = raw.len() / 4;
    if has_tag(tags_of_views(raw, little), bit) {
        lemma_union_only(raw, n, bit, little);
    }
    if exists|k: int| 0 <= k < n && has_tag(#[trigger] word_at(raw, k, little), bit) {
        let k = choose|k: int| 0 <= k < n && has_tag(#[trigger] word_at(raw, k, little), bit);
        lemma_union_has(raw, n, k, bit, little);
    }
}

/// The tag of a workspace is the bit of its number, counted from one.
pub proof fn law_tags(id: u64)
    ensures
        tag_mask(id) is Some <==> 1 <= id <= 32,
        tag_mask(1) == Some(1u32),
        1 <= id < 32 ==> tag_mask((id + 1) as u64)->0 == 2 * tag_mask(id)->0,
{
    assert(1u32 << 0u32 == 1) by (bit_vector);
    if 1 <= id < 32 {
        let a = (id - 1) as u32;
        let b = id as u32;
        assert((1u32 << b) == 2 * (1u32 << a)) by (bit_vector)
            requires
                b < 32,
                a < 31,
                b == a + 1,
        ;
    }
}

/// A workspace is active exactly if its bit is among the focused tags, and occupied exactly if it is
/// among those of the views; its number and its index count from one.
pub proof fn law_workspaces_of_tags(focused: u32, occupied: u32, bit: u32)
    requires
        bit < 9,
    ensures
        ({
            let w = workspace_at(focused, occupied, bit as int);
            &&& w.id == bit + 1 && w.index == bit + 1
            &&& w.active <==> (focused >> bit) & 1 == 1
            &&& w.occupied <==> (occupied >> bit) & 1 == 1
        }),
{
    assert((focused & (1u32 << bit) != 0) == ((focused >> bit) & 1 == 1)) by (bit_vector)
        requires
            bit < 9,
    ;
    assert((occupied & (1u32 << bit) != 0) == ((occupied >> bit) & 1 == 1)) by (bit_vector)
        requires
            bit < 9,
    ;
}

/// Four bytes make a number place by place, from the lowest on or from the highest on.
pub proof fn law_numbers_of_bytes(a: u8, b: u8, c: u8, d: u8)
    ensures
        word(a, b, c, d, true) == a + 256 * (b + 256 * (c + 256 * d)),
        word(a, b, c, d, false) == word(d, c, b, a, true),
{
}

/// The union of the tags of two lists of views is that of both together.
pub proof fn law_views_add_up(raw: Seq<u8>, more: Seq<u8>, little: bool)
    requires
        raw.len() % 4 == 0,
        more.len() == 4,
    ensures
        tags_of_views(raw + more, little) == tags_of_views(raw, little) | word(
            more[0],
            more[1],
            more[2],
            more[3],
            little,
        ),
        tags_of_views(Seq::empty(), little) == 0,
{
    let n = raw.len() / 4;
    lemma_union_prefix(raw, raw + more, n, little);
    assert((raw + more).len() / 4 == n + 1);
    assert(word_at(raw + more, n as int, little) == word(more[0], more[1], more[2], more[3], little));
}

proof fn lemma_union_prefix(a: Seq<u8>, b: Seq<u8>, n: nat, little: bool)
    requires
        4 * n <= a.len() <= b.len(),
        forall|i: int| 0 <= i < a.len() ==> a[i] == b[i],
    ensures
        union_of(a, n, little) == union_of(b, n, little),
    decreases n,
{
    if n > 0 {
        lemma_union_prefix(a, b, (n - 1) as nat, little);
        assert(word_at(a, n - 1, little) == word_at(b, n - 1, little));
    }
}

/// Bytes at the end that make no whole number do not count.
pub proof fn law_incomplete_numbers_do_not_count(raw: Seq<u8>, more: Seq<u8>, little: bool)
    requires
        raw.len() % 4 == 0,
        more.len() < 4,
    ensures
        tags_of_views(raw + more, little) == tags_of_views(raw, little),
{
    let n = raw.len() / 4;
    lemma_union_prefix(raw, raw + more, n, little);
    assert((raw + more).len() / 4 == n);
}

} // verus!
