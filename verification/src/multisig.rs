//! The framing of the messages which the signers of a transaction exchange.
//!
//! Each signer's preprocess holds, for each input in order, a block of a
//! fixed length: 64 bytes of nonce commitments, then the share of the key
//! image in 32 bytes, then what the signature scheme adds. Behind the
//! blocks the leader writes 32 bytes of entropy and the range proof. Each
//! signer's share holds 32 bytes for each input.
//!
//! What the signers draw in common is seeded by a transcript of the
//! transaction: the group's spend key; for each input the hash of the
//! transaction it comes from, its position there and the key shared with
//! its sender; for each payment the address and the amount; and the
//! address of the change.
use crate::field::{field_add, field_sub, lemma_order_positive, order, Scalar};
use crate::scalar_vector::values;
use crate::transcript::{Transcript, TranscriptView};
use vstd::bytes::{spec_u16_to_le_bytes, spec_u64_to_le_bytes, u16_to_le_bytes, u64_to_le_bytes};
use vstd::prelude::*;

verus! {

/// The position of the key-image share within an input's block.
pub const IMAGE_OFFSET: usize = 64;

/// The length of a key-image share, of the leader's entropy, and of a
/// signer's share for one input.
pub const WORD: usize = 32;

/// Whether a message has the bytes from `from` to `from + len`.
pub open spec fn spans(message: Seq<u8>, from: int, len: int) -> bool {
    0 <= from && 0 <= len && from + len <= message.len()
}

/// The first signer who sent anything, if one did.
pub fn first_participant(messages: &Vec<Option<Vec<u8>>>) -> (r: Option<usize>)
    ensures
        match r {
            Some(l) => l < messages@.len() && messages@[l as int] is Some && forall|k: int|
                0 <= k < l ==> messages@[k] is None,
            None => forall|k: int| 0 <= k < messages@.len() ==> messages@[k] is None,
        },
{
    let mut l: usize = 0;
    while l < messages.len()
        invariant
            l <= messages@.len(),
            forall|k: int| 0 <= k < l ==> messages@[k] is None,
        decreases messages@.len() - l,
    {
        if messages[l].is_some() {
            return Some(l);
        }
        l += 1;
    }
    None
}

/// The bytes of a message from `from` to `from + len`; none where the
/// message is too short.
pub fn part(message: &Vec<u8>, from: usize, len: usize) -> (r: Option<Vec<u8>>)
    ensures
        r.is_some() == spans(message@, from as int, len as int),
        r matches Some(bytes) ==> bytes@ == message@.subrange(from as int, from + len),
{
    if from > message.len() || len > message.len() - from {
        return None;
    }
    let mut out: Vec<u8> = Vec::with_capacity(len);
    let mut i: usize = 0;
    while i < len
        invariant
            i <= len,
            from + len <= message@.len(),
            message@.len() <= usize::MAX,
            out@ == message@.subrange(from as int, from + i),
        decreases len - i,
    {
        out.push(message[from + i]);
        assert(message@.subrange(from as int, from + i + 1) =~= message@.subrange(
            from as int,
            from + i,
        ).push(message@[from + i]));
        i += 1;
    }
    Some(out)
}

/// The 32 bytes of a message from `from`; none where the message is too
/// short.
pub fn word(message: &Vec<u8>, from: usize) -> (r: Option<[u8; 32]>)
    ensures
        r.is_some() == spans(message@, from as int, 32),
        r matches Some(bytes) ==> bytes@ == message@.subrange(from as int, from + 32),
{
    if from > message.len() || 32 > message.len() - from {
        return None;
    }
    let mut out = [0u8; 32];
    let mut i: usize = 0;
    while i < 32
        invariant
            i <= 32,
            from + 32 <= message@.len(),
            message@.len() <= usize::MAX,
            forall|k: int| 0 <= k < i ==> out@[k] == message@[from + k],
        decreases 32 - i,
    {
        out[i] = message[from + i];
        i += 1;
    }
    assert(out@ =~= message@.subrange(from as int, from + 32));
    Some(out)
}

/// The entropy which the leader wrote behind the blocks of `inputs` inputs.
pub fn entropy(preprocess: &Vec<u8>, inputs: usize, block: usize) -> (r: Option<[u8; 32]>)
    ensures
        r.is_some() == spans(preprocess@, inputs * block, 32),
        r matches Some(bytes) ==> bytes@ == preprocess@.subrange(
            inputs * block,
            inputs * block + 32,
        ),
{
    let length = preprocess.len();
    match inputs.checked_mul(block) {
        Some(blocks) => word(preprocess, blocks),
        None => {
            assert(inputs * block > length);
            None
        },
    }
}

/// The range proof which the leader wrote behind the entropy.
pub fn range_proof(preprocess: &Vec<u8>, inputs: usize, block: usize) -> (r: Option<Vec<u8>>)
    ensures
        r.is_some() == spans(preprocess@, inputs * block, 32),
        r matches Some(bytes) ==> bytes@ == preprocess@.subrange(
            inputs * block + 32,
            preprocess@.len() as int,
        ),
{
    let length = preprocess.len();
    match inputs.checked_mul(block) {
        Some(blocks) => {
            if blocks > length || 32 > length - blocks {
                return None;
            }
            part(preprocess, blocks + 32, length - blocks - 32)
        },
        None => {
            assert(inputs * block > length);
            None
        },
    }
}

/// A signer's share of the key image of input `input`.
pub fn key_image_share(preprocess: &Vec<u8>, input: usize, block: usize) -> (r: Option<[u8; 32]>)
    ensures
        r.is_some() == spans(preprocess@, input * block + 64, 32),
        r matches Some(bytes) ==> bytes@ == preprocess@.subrange(
            input * block + 64,
            input * block + 96,
        ),
{
    let length = preprocess.len();
    match input.checked_mul(block) {
        Some(start) => {
            if start > length || IMAGE_OFFSET > length - start {
                return None;
            }
            word(preprocess, start + IMAGE_OFFSET)
        },
        None => {
            assert(input * block > length);
            None
        },
    }
}

/// Whether each signer who sent a message sent the block of index `index`.
pub open spec fn all_have(messages: Seq<Option<Vec<u8>>>, index: int, block: int) -> bool {
    forall|l: int|
        0 <= l < messages.len() ==> ((#[trigger] messages[l]) matches Some(message) ==> spans(
            message@,
            index * block,
            block,
        ))
}

/// Of each signer's message the block of index `index`; none where a
/// signer's message is too short to hold it.
pub fn blocks(messages: &Vec<Option<Vec<u8>>>, index: usize, block: usize) -> (r: Option<
    Vec<Option<Vec<u8>>>,
>)
    ensures
        r.is_some() == all_have(messages@, index as int, block as int),
        r matches Some(parts) ==> parts@.len() == messages@.len() && forall|l: int|
            0 <= l < messages@.len() ==> match (#[trigger] messages@[l]) {
                Some(message) => parts@[l] matches Some(bytes) && bytes@ == message@.subrange(
                    index * block,
                    index * block + block,
                ),
                None => parts@[l] is None,
            },
{
    let mut out: Vec<Option<Vec<u8>>> = Vec::with_capacity(messages.len());
    let mut l: usize = 0;
    while l < messages.len()
        invariant
            l <= messages@.len(),
            out@.len() == l,
            forall|k: int|
                0 <= k < l ==> ((#[trigger] messages@[k]) matches Some(message) ==> spans(
                    message@,
                    index * block,
                    block as int,
                )),
            forall|k: int|
                0 <= k < l ==> match (#[trigger] messages@[k]) {
                    Some(message) => out@[k] matches Some(bytes) && bytes@ == message@.subrange(
                        index * block,
                        index * block + block,
                    ),
                    None => out@[k] is None,
                },
        decreases messages@.len() - l,
    {
        match &messages[l] {
            None => {
                out.push(None);
            },
            Some(message) => {
                let length = message.len();
                let found = match index.checked_mul(block) {
                    Some(start) => part(message, start, block),
                    None => {
                        assert(index * block > length);
                        None
                    },
                };
                match found {
                    Some(bytes) => {
                        out.push(Some(bytes));
                    },
                    None => {
                        assert(!spans(message@, index * block, block as int));
                        return None;
                    },
                }
            },
        }
        l += 1;
    }
    Some(out)
}

/// The sum of the first `k` scalars, taken from the left.
pub open spec fn total(masks: Seq<nat>, k: nat) -> nat
    decreases k,
{
    if k == 0 {
        0
    } else {
        field_add(total(masks, (k - 1) as nat), masks[k - 1])
    }
}

/// Balances the masks of the inputs against the sum of the masks of the
/// outputs: the last mask becomes what the others lack, so that all of them
/// sum to `outputs`. The others stay.
pub fn balance(masks: &mut Vec<Scalar>, outputs: &Scalar)
    requires
        old(masks)@.len() > 0,
    ensures
        final(masks)@.len() == old(masks)@.len(),
        forall|i: int| 0 <= i < old(masks)@.len() - 1 ==> final(masks)@[i] == old(masks)@[i],
        final(masks)@[old(masks)@.len() - 1]@ == field_sub(
            outputs@,
            total(values(old(masks)@), (old(masks)@.len() - 1) as nat),
        ),
        total(values(final(masks)@), final(masks)@.len()) == outputs@,
{
    let last = masks.len() - 1;
    let ghost before = values(masks@);
    let mut sum = Scalar::zero();
    let mut i: usize = 0;
    while i < last
        invariant
            i <= last,
            last == masks@.len() - 1,
            before == values(masks@),
            sum@ == total(before, i as nat),
        decreases last - i,
    {
        sum = sum.add(&masks[i]);
        i += 1;
    }
    let mask = outputs.sub(&sum);
    masks.set(last, mask);
    sum.bounded();
    outputs.bounded();
    proof {
        let after = values(masks@);
        lemma_total_prefix(before, after, last as nat);
        lemma_sub_then_add(outputs@, sum@);
    }
}

/// The sum of the first `k` scalars is that of any list which begins with
/// them.
proof fn lemma_total_prefix(a: Seq<nat>, b: Seq<nat>, k: nat)
    requires
        k <= a.len(),
        k <= b.len(),
        forall|i: int| 0 <= i < k ==> a[i] == b[i],
    ensures
        total(a, k) == total(b, k),
    decreases k,
{
    if k > 0 {
        lemma_total_prefix(a, b, (k - 1) as nat);
    }
}

/// What was taken away is given back by adding it.
pub proof fn lemma_sub_then_add(a: nat, b: nat)
    requires
        a < order(),
        b < order(),
    ensures
        field_add(b, field_sub(a, b)) == a,
{
    lemma_order_positive();
    let n = order() as int;
    let d = (a as int - b as int) % n;
    if a >= b {
        vstd::arithmetic::div_mod::lemma_small_mod((a - b) as nat, order());
        vstd::arithmetic::div_mod::lemma_small_mod(a, order());
    } else {
        vstd::arithmetic::div_mod::lemma_mod_add_multiples_vanish(a as int - b as int, n);
        vstd::arithmetic::div_mod::lemma_small_mod((a + order() - b) as nat, order());
        assert(d == a + n - b);
        vstd::arithmetic::div_mod::lemma_mod_add_multiples_vanish(a as int, n);
        vstd::arithmetic::div_mod::lemma_small_mod(a, order());
    }
}

/// An output which the transaction spends.
pub struct SpentOutput {
    /// The hash of the transaction which made the output.
    pub tx: [u8; 32],
    /// The output's position in that transaction.
    pub o: u16,
    /// The key shared with the sender of the output.
    pub key_offset: [u8; 32],
}

/// A payment which the transaction makes.
pub struct Payment {
    /// The address paid, as bytes.
    pub address: Vec<u8>,
    /// The amount paid.
    pub amount: u64,
}

/// A message under a label.
pub struct Message {
    pub label: &'static str,
    pub bytes: Vec<u8>,
}

/// Labelled messages as plain values.
pub open spec fn messages_view(messages: Seq<Message>) -> Seq<(Seq<char>, Seq<u8>)> {
    Seq::new(messages.len(), |i: int| (messages[i].label@, messages[i].bytes@))
}

/// The three messages of an input: the hash, the position in two bytes
/// from the lowest, and the shared key.
pub open spec fn input_frame(input: SpentOutput) -> Seq<(Seq<char>, Seq<u8>)> {
    seq![
        ("input_hash"@, input.tx@),
        ("input_output_index"@, spec_u16_to_le_bytes(input.o)),
        ("input_shared_key"@, input.key_offset@),
    ]
}

/// The two messages of a payment: the address, and the amount in eight
/// bytes from the lowest.
pub open spec fn payment_frame(payment: Payment) -> Seq<(Seq<char>, Seq<u8>)> {
    seq![
        ("payment_address"@, payment.address@),
        ("payment_amount"@, spec_u64_to_le_bytes(payment.amount)),
    ]
}

/// The messages of the first `k` inputs, in their order.
pub open spec fn inputs_frame(inputs: Seq<SpentOutput>, k: nat) -> Seq<(Seq<char>, Seq<u8>)>
    decreases k,
{
    if k == 0 {
        Seq::empty()
    } else {
        inputs_frame(inputs, (k - 1) as nat) + input_frame(inputs[k - 1])
    }
}

/// The messages of the first `k` payments, in their order.
pub open spec fn payments_frame(payments: Seq<Payment>, k: nat) -> Seq<(Seq<char>, Seq<u8>)>
    decreases k,
{
    if k == 0 {
        Seq::empty()
    } else {
        payments_frame(payments, (k - 1) as nat) + payment_frame(payments[k - 1])
    }
}

/// The messages which bind a transaction: the spend key, the inputs, the
/// payments and the change.
pub open spec fn frame(
    spend_key: Seq<u8>,
    inputs: Seq<SpentOutput>,
    payments: Seq<Payment>,
    change: Seq<u8>,
) -> Seq<(Seq<char>, Seq<u8>)> {
    seq![("spend_key"@, spend_key)] + inputs_frame(inputs, inputs.len()) + payments_frame(
        payments,
        payments.len(),
    ) + seq![("change"@, change)]
}

/// The transcript after the first `k` of a list of messages were written
/// to it.
pub open spec fn wrote(t: TranscriptView, messages: Seq<(Seq<char>, Seq<u8>)>, k: nat) -> TranscriptView
    decreases k,
{
    if k == 0 {
        t
    } else {
        wrote(t, messages, (k - 1) as nat).message(messages[k - 1].0, messages[k - 1].1)
    }
}

/// A copy of some bytes.
fn copied(bytes: &[u8]) -> (r: Vec<u8>)
    ensures
        r@ == bytes@,
{
    let mut out: Vec<u8> = Vec::with_capacity(bytes.len());
    let mut i: usize = 0;
    while i < bytes.len()
        invariant
            i <= bytes@.len(),
            out@ == bytes@.take(i as int),
        decreases bytes@.len() - i,
    {
        out.push(bytes[i]);
        assert(out@ =~= bytes@.take(i + 1));
        i += 1;
    }
    assert(bytes@.take(bytes@.len() as int) =~= bytes@);
    out
}

/// The messages which bind a transaction, in the order in which the
/// signers write them to their transcript.
pub fn framed(
    spend_key: &[u8; 32],
    inputs: &Vec<SpentOutput>,
    payments: &Vec<Payment>,
    change: &Vec<u8>,
) -> (r: Vec<Message>)
    ensures
        messages_view(r@) == frame(spend_key@, inputs@, payments@, change@),
{
    let mut out: Vec<Message> = Vec::new();
    out.push(Message { label: "spend_key", bytes: copied(spend_key.as_slice()) });
    let ghost head = seq![("spend_key"@, spend_key@)];
    assert(messages_view(out@) =~= head);
    let mut i: usize = 0;
    while i < inputs.len()
        invariant
            i <= inputs@.len(),
            messages_view(out@) == head + inputs_frame(inputs@, i as nat),
        decreases inputs@.len() - i,
    {
        let ghost before = messages_view(out@);
        out.push(Message { label: "input_hash", bytes: copied(inputs[i].tx.as_slice()) });
        out.push(Message { label: "input_output_index", bytes: u16_to_le_bytes(inputs[i].o) });
        out.push(
            Message { label: "input_shared_key", bytes: copied(inputs[i].key_offset.as_slice()) },
        );
        assert(messages_view(out@) =~= before + input_frame(inputs@[i as int]));
        assert(head + inputs_frame(inputs@, (i + 1) as nat) =~= before + input_frame(
            inputs@[i as int],
        ));
        i += 1;
    }
    let ghost spent = head + inputs_frame(inputs@, inputs@.len());
    let mut j: usize = 0;
    while j < payments.len()
        invariant
            j <= payments@.len(),
            messages_view(out@) == spent + payments_frame(payments@, j as nat),
        decreases payments@.len() - j,
    {
        let ghost before = messages_view(out@);
        out.push(
            Message { label: "payment_address", bytes: copied(payments[j].address.as_slice()) },
        );
        out.push(Message { label: "payment_amount", bytes: u64_to_le_bytes(payments[j].amount) });
        assert(messages_view(out@) =~= before + payment_frame(payments@[j as int]));
        assert(spent + payments_frame(payments@, (j + 1) as nat) =~= before + payment_frame(
            payments@[j as int],
        ));
        j += 1;
    }
    let ghost before = messages_view(out@);
    out.push(Message { label: "change", bytes: copied(change.as_slice()) });
    assert(messages_view(out@) =~= before + seq![("change"@, change@)]);
    out
}

/// The transcript of a transaction: one of the given name, to which the
/// messages which bind the transaction were written in their order.
pub fn transcript(
    label: &'static str,
    spend_key: &[u8; 32],
    inputs: &Vec<SpentOutput>,
    payments: &Vec<Payment>,
    change: &Vec<u8>,
) -> (r: Transcript)
    ensures
        r@ == wrote(
            TranscriptView::named(label@),
            frame(spend_key@, inputs@, payments@, change@),
            frame(spend_key@, inputs@, payments@, change@).len(),
        ),
{
    let messages = framed(spend_key, inputs, payments, change);
    let ghost all = frame(spend_key@, inputs@, payments@, change@);
    let mut out = Transcript::new(label);
    let mut i: usize = 0;
    while i < messages.len()
        invariant
            i <= messages@.len(),
            messages_view(messages@) == all,
            out@ == wrote(TranscriptView::named(label@), all, i as nat),
        decreases messages@.len() - i,
    {
        assert(all[i as int] == (messages@[i as int].label@, messages@[i as int].bytes@));
        out.append_message(messages[i].label, messages[i].bytes.as_slice());
        i += 1;
    }
    out
}

} // verus!
