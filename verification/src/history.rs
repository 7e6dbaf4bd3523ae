//! Conversation history trimming: when more than five non-initial messages
//! carry screenshots, the oldest of them lose their `Image` blocks. Text and
//! tool results are never removed, and the first message (the task) is never
//! touched.

use vstd::prelude::*;

use vstd::set_lib::{lemma_len_subset, lemma_int_range, set_int_range};

use crate::msg::{blocks_view, has_image, is_image, msgs_view, result_ids, BlockV, ContentBlock,
    Message, MessageV};

verus! {

/// How many non-initial messages may keep their screenshot images.
pub const MAX_SCREENSHOT_MESSAGES: usize = 5;

/// `blocks` with every `Image` block removed; everything else keeps its order.
pub open spec fn drop_images(blocks: Seq<BlockV>) -> Seq<BlockV>
    decreases blocks.len(),
{
    if blocks.len() == 0 {
        blocks
    } else if blocks.last() is Image {
        drop_images(blocks.drop_last())
    } else {
        drop_images(blocks.drop_last()).push(blocks.last())
    }
}

/// Removing images leaves no image behind.
pub proof fn lemma_drop_images_no_image(blocks: Seq<BlockV>)
    ensures
        forall|k: int| 0 <= k < drop_images(blocks).len() ==> !is_image(
            #[trigger] drop_images(blocks)[k],
        ),
    decreases blocks.len(),
{
    if blocks.len() > 0 {
        lemma_drop_images_no_image(blocks.drop_last());
        let sub = drop_images(blocks.drop_last());
        if !(blocks.last() is Image) {
            assert forall|k: int| 0 <= k < drop_images(blocks).len() implies !is_image(
                drop_images(blocks)[k],
            ) by {
                if k < sub.len() {
                    assert(drop_images(blocks)[k] == sub[k]);
                } else {
                    assert(drop_images(blocks)[k] == blocks.last());
                }
            }
        }
    }
}

/// Removing images removes no tool result: the referenced ids are unchanged.
pub proof fn lemma_drop_images_keeps_results(blocks: Seq<BlockV>)
    ensures
        result_ids(drop_images(blocks)) == result_ids(blocks),
    decreases blocks.len(),
{
    if blocks.len() > 0 {
        let t = blocks.drop_last();
        lemma_drop_images_keeps_results(t);
        if blocks.last() is Image {
        } else {
            let d = drop_images(t).push(blocks.last());
            assert(d.drop_last() =~= drop_images(t));
            assert(d.last() == blocks.last());
        }
    }
}

/// The non-initial positions of messages that still carry an image.
pub open spec fn imaged_after_first(ms: Seq<MessageV>) -> Set<int> {
    Set::new(|i: int| 1 <= i < ms.len() && has_image(ms[i]))
}

/// How many non-initial messages before position `j` carry an image.
pub open spec fn imaged_before(ms: Seq<MessageV>, j: int) -> int
    decreases j,
{
    if j <= 1 {
        0
    } else {
        imaged_before(ms, j - 1) + if has_image(ms[j - 1]) {
            1int
        } else {
            0int
        }
    }
}

/// Counting images agrees with the cardinality of the imaged positions.
proof fn lemma_count_card_to(ms: Seq<MessageV>, j: int)
    ensures
        Set::new(|i: int| 1 <= i < j && has_image(ms[i])).finite(),
        Set::new(|i: int| 1 <= i < j && has_image(ms[i])).len() == imaged_before(ms, j),
    decreases j,
{
    if j <= 1 {
        assert(Set::new(|i: int| 1 <= i < j && has_image(ms[i])) =~= Set::<int>::empty());
    } else {
        lemma_count_card_to(ms, j - 1);
        let a = Set::new(|i: int| 1 <= i < j - 1 && has_image(ms[i]));
        let b = Set::new(|i: int| 1 <= i < j && has_image(ms[i]));
        if has_image(ms[j - 1]) {
            assert(!a.contains(j - 1));
            assert(b =~= a.insert(j - 1));
        } else {
            assert(b =~= a);
        }
    }
}

/// The image count grows by at most one per position.
pub proof fn lemma_imaged_before_mono(ms: Seq<MessageV>, a: int, b: int)
    requires
        a <= b,
    ensures
        imaged_before(ms, a) <= imaged_before(ms, b),
        imaged_before(ms, b) <= imaged_before(ms, a) + (b - a),
    decreases b - a,
{
    if a < b {
        lemma_imaged_before_mono(ms, a, b - 1);
    }
}

/// The image count before `j` is non-negative and below `j`.
pub proof fn lemma_imaged_before_bounds(ms: Seq<MessageV>, j: int)
    ensures
        0 <= imaged_before(ms, j),
        j >= 1 ==> imaged_before(ms, j) <= j - 1,
    decreases j,
{
    if j > 1 {
        lemma_imaged_before_bounds(ms, j - 1);
    }
}

/// The set of values of a sequence has at most as many elements.
proof fn lemma_set_of_seq_card(s: Seq<int>)
    ensures
        Set::new(|j: int| s.contains(j)).finite(),
        Set::new(|j: int| s.contains(j)).len() <= s.len(),
    decreases s.len(),
{
    let a = Set::new(|j: int| s.contains(j));
    if s.len() == 0 {
        assert(a =~= Set::<int>::empty());
    } else {
        let t = s.drop_last();
        lemma_set_of_seq_card(t);
        let b = Set::new(|j: int| t.contains(j));
        assert forall|j: int| a.contains(j) implies b.insert(s.last()).contains(j) by {
            let i = choose|i: int| 0 <= i < s.len() && s[i] == j;
            if i < s.len() - 1 {
                assert(t[i] == j);
            }
        }
        assert forall|j: int| b.insert(s.last()).contains(j) implies a.contains(j) by {
            if b.contains(j) {
                let i = choose|i: int| 0 <= i < t.len() && t[i] == j;
                assert(s[i] == j);
            } else {
                assert(s[s.len() - 1] == j);
            }
        }
        assert(a =~= b.insert(s.last()));
    }
}

/// A message contains at least one image block.
fn message_has_image(m: &Message) -> (r: bool)
    ensures
        r == has_image(m@),
{
    let mut i: usize = 0;
    while i < m.content.len()
        invariant
            i <= m.content@.len(),
            forall|k: int| 0 <= k < i ==> !is_image(#[trigger] m@.content[k]),
        decreases m.content@.len() - i,
    {
        let found = match &m.content[i] {
            ContentBlock::Image { .. } => true,
            _ => false,
        };
        if found {
            proof {
                assert(is_image(m@.content[i as int]));
            }
            return true;
        }
        i += 1;
    }
    false
}

/// A copy of `m` without its image blocks.
fn strip_images(m: &Message) -> (r: Message)
    ensures
        r.role == m.role,
        r@.content == drop_images(m@.content),
{
    let mut content: Vec<ContentBlock> = Vec::new();
    let mut i: usize = 0;
    while i < m.content.len()
        invariant
            i <= m.content@.len(),
            blocks_view(content@) == drop_images(blocks_view(m.content@).subrange(0, i as int)),
        decreases m.content@.len() - i,
    {
        let ghost pfx = blocks_view(m.content@).subrange(0, i as int);
        let ghost pfx2 = blocks_view(m.content@).subrange(0, i + 1);
        proof {
            assert(pfx2.drop_last() =~= pfx);
            assert(pfx2.last() == m@.content[i as int]);
        }
        let keep = match &m.content[i] {
            ContentBlock::Image { .. } => false,
            _ => true,
        };
        if keep {
            content.push(m.content[i].duplicate());
            proof {
                assert(blocks_view(content@) =~= drop_images(pfx).push(
                    m@.content[i as int],
                ));
            }
        } else {
            proof {
                assert(blocks_view(content@) =~= drop_images(pfx2));
            }
        }
        i += 1;
    }
    proof {
        assert(blocks_view(m.content@).subrange(0, m.content@.len() as int) =~= blocks_view(
            m.content@,
        ));
    }
    Message { role: m.role, content }
}

/// Trim the conversation: when more than [`MAX_SCREENSHOT_MESSAGES`]
/// non-initial messages contain an image, the oldest of them lose their
/// `Image` blocks (and only those blocks). The first message is returned
/// exactly as it was, every message keeps its position, and afterwards at
/// most five non-initial messages still contain an image.
pub fn trim_history(messages: &mut Vec<Message>)
    ensures
        final(messages)@.len() == old(messages)@.len(),
        old(messages)@.len() > 0 ==> final(messages)@[0] == old(messages)@[0],
        forall|j: int| 0 <= j < old(messages)@.len() ==> (#[trigger] final(messages)@[j]).role
            == old(messages)@[j].role,
        forall|j: int| 0 <= j < old(messages)@.len() ==> ((#[trigger] final(messages)@[j])@.content
            == old(messages)@[j]@.content || final(messages)@[j]@.content == drop_images(
            old(messages)@[j]@.content,
        )),
        forall|j: int| 0 <= j < old(messages)@.len() ==> result_ids(
            (#[trigger] final(messages)@[j])@.content,
        ) == result_ids(old(messages)@[j]@.content),
        imaged_after_first(msgs_view(final(messages)@)).finite(),
        imaged_after_first(msgs_view(final(messages)@)).len() <= MAX_SCREENSHOT_MESSAGES as int,
        imaged_before(msgs_view(final(messages)@), final(messages)@.len() as int) <= 5,
        old(messages)@.len() <= 3 ==> final(messages)@ == old(messages)@,
        imaged_before(msgs_view(old(messages)@), old(messages)@.len() as int) <= 5
            ==> final(messages)@ == old(messages)@,
        forall|j: int| 1 <= j < old(messages)@.len() && has_image(
            msgs_view(old(messages)@)[j],
        ) && imaged_before(msgs_view(old(messages)@), j) < imaged_before(
            msgs_view(old(messages)@),
            old(messages)@.len() as int,
        ) - 5 ==> (#[trigger] final(messages)@[j])@.content == drop_images(
            old(messages)@[j]@.content,
        ),
        forall|j: int| 0 <= j < old(messages)@.len() && !(1 <= j && has_image(
            msgs_view(old(messages)@)[j],
        ) && imaged_before(msgs_view(old(messages)@), j) < imaged_before(
            msgs_view(old(messages)@),
            old(messages)@.len() as int,
        ) - 5) ==> #[trigger] final(messages)@[j] == old(messages)@[j],
{
    let len = messages.len();
    let ghost oldseq = messages@;
    if len <= 3 {
        proof {
            let a = imaged_after_first(msgs_view(messages@));
            lemma_int_range(1, 4);
            lemma_len_subset(a, set_int_range(1, 4));
            lemma_imaged_before_bounds(msgs_view(messages@), len as int);
            assert forall|j: int| 0 <= j < len implies imaged_before(
                msgs_view(messages@),
                j,
            ) >= 0 by {
                lemma_imaged_before_bounds(msgs_view(messages@), j);
            }
            lemma_count_card_to(msgs_view(messages@), len as int);
            assert(a =~= Set::new(
                |i: int| 1 <= i < len && has_image(msgs_view(messages@)[i]),
            ));
        }
        return;
    }
    // Collect the non-initial positions of messages that carry an image.
    let mut idxs: Vec<usize> = Vec::new();
    let mut i: usize = 1;
    while i < len
        invariant
            len == messages@.len(),
            1 <= i <= len,
            forall|k: int| 0 <= k < idxs@.len() ==> 1 <= #[trigger] idxs@[k] < i,
            forall|k1: int, k2: int| 0 <= k1 < k2 < idxs@.len() ==> idxs@[k1] < idxs@[k2],
            forall|k: int| 0 <= k < idxs@.len() ==> has_image(
                messages@[#[trigger] idxs@[k] as int]@,
            ),
            forall|j: int| 1 <= j < i && has_image(#[trigger] messages@[j]@) ==> exists|k: int|
                0 <= k < idxs@.len() && idxs@[k] == j,
            idxs@.len() == imaged_before(msgs_view(messages@), i as int),
            forall|k: int| 0 <= k < idxs@.len() ==> imaged_before(
                msgs_view(messages@),
                #[trigger] idxs@[k] as int,
            ) == k,
        decreases len - i,
    {
        let ghost prev = idxs@;
        let has = message_has_image(&messages[i]);
        proof {
            assert(msgs_view(messages@)[i as int] == messages@[i as int]@);
            assert(imaged_before(msgs_view(messages@), i + 1) == imaged_before(
                msgs_view(messages@),
                i as int,
            ) + if has_image(msgs_view(messages@)[i as int]) {
                1int
            } else {
                0int
            });
        }
        if has {
            idxs.push(i);
        }
        proof {
            assert forall|j: int| 1 <= j < i + 1 && has_image(#[trigger] messages@[j]@)
                implies exists|k: int| 0 <= k < idxs@.len() && idxs@[k] == j by {
                if j == i {
                    assert(idxs@[idxs@.len() - 1] == j);
                } else {
                    let k = choose|k: int| 0 <= k < prev.len() && prev[k] == j;
                    assert(idxs@[k] == j);
                }
            }
        }
        i += 1;
    }
    if idxs.len() <= MAX_SCREENSHOT_MESSAGES {
        proof {
            let a = imaged_after_first(msgs_view(messages@));
            let iseq = idxs@.map_values(|u: usize| u as int);
            let b = Set::new(|j: int| iseq.contains(j));
            lemma_set_of_seq_card(iseq);
            assert forall|j: int| a.contains(j) implies b.contains(j) by {
                let k = choose|k: int| 0 <= k < idxs@.len() && idxs@[k] == j;
                assert(iseq[k] == j);
            }
            lemma_len_subset(a, b);
            assert(imaged_before(msgs_view(messages@), len as int) <= 5);
            assert forall|j: int| 0 <= j < len implies imaged_before(
                msgs_view(messages@),
                j,
            ) >= 0 by {
                lemma_imaged_before_bounds(msgs_view(messages@), j);
            }
            lemma_count_card_to(msgs_view(messages@), len as int);
            assert(a =~= Set::new(
                |i: int| 1 <= i < len && has_image(msgs_view(messages@)[i]),
            ));
        }
        return;
    }
    let to_remove = idxs.len() - MAX_SCREENSHOT_MESSAGES;
    let ghost iseq = idxs@.map_values(|u: usize| u as int);
    let mut k: usize = 0;
    while k < to_remove
        invariant
            to_remove == idxs@.len() - 5,
            to_remove <= idxs@.len(),
            k <= to_remove,
            len == messages@.len(),
            len == oldseq.len(),
            iseq == idxs@.map_values(|u: usize| u as int),
            forall|k1: int| 0 <= k1 < idxs@.len() ==> 1 <= #[trigger] idxs@[k1] < len,
            forall|k1: int, k2: int| 0 <= k1 < k2 < idxs@.len() ==> idxs@[k1] < idxs@[k2],
            forall|k1: int| 0 <= k1 < idxs@.len() ==> has_image(
                oldseq[#[trigger] idxs@[k1] as int]@,
            ),
            forall|j: int| 1 <= j < len && has_image(#[trigger] oldseq[j]@) ==> exists|k1: int|
                0 <= k1 < idxs@.len() && idxs@[k1] == j,
            idxs@.len() == imaged_before(msgs_view(oldseq), len as int),
            forall|k1: int| 0 <= k1 < idxs@.len() ==> imaged_before(
                msgs_view(oldseq),
                #[trigger] idxs@[k1] as int,
            ) == k1,
            forall|j: int| 0 <= j < len && !(exists|k1: int|
                0 <= k1 < k && idxs@[k1] == j) ==> #[trigger] messages@[j] == oldseq[j],
            forall|k1: int| 0 <= k1 < k ==> (#[trigger] messages@[idxs@[k1] as int]).role
                == oldseq[idxs@[k1] as int].role,
            forall|k1: int| 0 <= k1 < k ==> (#[trigger] messages@[idxs@[k1] as int])@.content
                == drop_images(oldseq[idxs@[k1] as int]@.content),
        decreases to_remove - k,
    {
        let idx = idxs[k];
        proof {
            assert(forall|k1: int| 0 <= k1 < k ==> #[trigger] idxs@[k1] < idxs@[k as int]);
            assert(messages@[idx as int] == oldseq[idx as int]);
        }
        let stripped = strip_images(&messages[idx]);
        messages[idx] = stripped;
        k += 1;
    }
    proof {
        let a = imaged_after_first(msgs_view(messages@));
        let tail = iseq.subrange(to_remove as int, iseq.len() as int);
        let b = Set::new(|j: int| tail.contains(j));
        lemma_set_of_seq_card(tail);
        assert forall|j: int| a.contains(j) implies b.contains(j) by {
            assert(has_image(messages@[j]@));
            if exists|k1: int| 0 <= k1 < to_remove && idxs@[k1] == j {
                let k1 = choose|k1: int| 0 <= k1 < to_remove && idxs@[k1] == j;
                lemma_drop_images_no_image(oldseq[j]@.content);
                assert(!has_image(messages@[j]@));
            } else {
                assert(messages@[j] == oldseq[j]);
                let k1 = choose|k1: int| 0 <= k1 < idxs@.len() && idxs@[k1] == j;
                assert(k1 >= to_remove);
                assert(tail[k1 - to_remove] == j);
            }
        }
        lemma_len_subset(a, b);
        lemma_count_card_to(msgs_view(messages@), len as int);
        assert(a =~= Set::new(
            |i: int| 1 <= i < len && has_image(msgs_view(messages@)[i]),
        ));
        assert forall|j: int| 0 <= j < oldseq.len() implies result_ids(
            (#[trigger] messages@[j])@.content,
        ) == result_ids(oldseq[j]@.content) by {
            if messages@[j]@.content != oldseq[j]@.content {
                lemma_drop_images_keeps_results(oldseq[j]@.content);
            }
        }
        let total = imaged_before(msgs_view(oldseq), len as int);
        assert forall|j: int| 1 <= j < len && has_image(msgs_view(oldseq)[j]) && imaged_before(
            msgs_view(oldseq),
            j,
        ) < total - 5 implies (#[trigger] messages@[j])@.content == drop_images(
            oldseq[j]@.content,
        ) by {
            assert(msgs_view(oldseq)[j] == oldseq[j]@);
            let k1 = choose|k1: int| 0 <= k1 < idxs@.len() && idxs@[k1] == j;
            assert(imaged_before(msgs_view(oldseq), idxs@[k1] as int) == k1);
            assert(k1 < to_remove);
            assert((messages@[idxs@[k1] as int])@.content == drop_images(
                oldseq[idxs@[k1] as int]@.content,
            ));
        }
        assert forall|j: int| 0 <= j < len && !(1 <= j && has_image(
            msgs_view(oldseq)[j],
        ) && imaged_before(msgs_view(oldseq), j) < total - 5) implies #[trigger] messages@[j]
            == oldseq[j] by {
            if exists|k1: int| 0 <= k1 < to_remove && idxs@[k1] == j {
                let k1 = choose|k1: int| 0 <= k1 < to_remove && idxs@[k1] == j;
                assert(has_image(oldseq[j]@));
                assert(msgs_view(oldseq)[j] == oldseq[j]@);
                assert(imaged_before(msgs_view(oldseq), j) == k1);
                assert(false);
            }
        }
    }
}

} // verus!
