//! Planning of the per-channel delivery.
//!
//! For each resolved channel the message goes out in exactly one of three
//! shapes: a plain text message when no file was collected, a single
//! document carrying the composed text as its caption, or one batched
//! document group.  In a batch the composed text is attached as caption on
//! exactly one item: the last one in collection order.

use vstd::prelude::*;

use crate::message::Attachment;

verus! {

/// One entry of a batched document group: a file, and the caption attached
/// to it, if any.
#[derive(Debug)]
pub struct BatchItem {
    pub file: Attachment,
    pub caption: Option<String>,
}

/// The one send a channel receives for a message.
#[derive(Debug)]
pub enum DeliveryAction {
    /// No files: the composed text alone.
    SendText { text: String },
    /// Exactly one file: a document with the composed text as caption.
    SendDocument { file: Attachment, caption: String },
    /// Several files: one batched group, the caption on the last item only.
    SendBatch { items: Vec<BatchItem> },
}

/// The delivery action that belongs to the collected files, as plain views:
/// `datas` and `names` are the files' bytes and display names in collection
/// order, `text` the composed message.
pub open spec fn action_for(
    a: DeliveryAction,
    datas: Seq<Seq<u8>>,
    names: Seq<Seq<char>>,
    text: Seq<char>,
) -> bool {
    if datas.len() == 0 {
        a matches DeliveryAction::SendText { text: t } && t@ == text
    } else if datas.len() == 1 {
        a matches DeliveryAction::SendDocument { file, caption } && file.data@ == datas[0]
            && file.name@ == names[0] && caption@ == text
    } else {
        a matches DeliveryAction::SendBatch { items } && items@.len() == datas.len() && (forall|
            i: int,
        |
            0 <= i < datas.len() ==> ((#[trigger] items@[i]).file.data@ == datas[i]
                && items@[i].file.name@ == names[i])) && (forall|i: int|
            0 <= i < datas.len() - 1 ==> (#[trigger] items@[i]).caption is None) && items@[datas.len()
            - 1].caption is Some && items@[datas.len() - 1].caption->0@ == text
    }
}

/// Plans the send for one message: text alone, one document with caption,
/// or a batch whose last item carries the caption.
pub fn plan_delivery(files: Vec<Attachment>, text: &String) -> (r: DeliveryAction)
    ensures
        action_for(
            r,
            files@.map_values(|f: Attachment| f.data@),
            files@.map_values(|f: Attachment| f.name@),
            text@,
        ),
{
    let ghost datas = files@.map_values(|f: Attachment| f.data@);
    let ghost names = files@.map_values(|f: Attachment| f.name@);
    let n = files.len();
    let mut files = files;
    if n == 0 {
        DeliveryAction::SendText { text: text.clone() }
    } else if n == 1 {
        let file = files.remove(0);
        DeliveryAction::SendDocument { file, caption: text.clone() }
    } else {
        let ghost orig = files@;
        let mut items: Vec<BatchItem> = Vec::new();
        while files.len() > 0
            invariant
                orig.len() == n,
                n >= 2,
                items@.len() + files@.len() == n,
                files@ == orig.subrange(items@.len() as int, n as int),
                forall|t: int|
                    0 <= t < items@.len() ==> (#[trigger] items@[t]).file == orig[t],
                forall|t: int|
                    0 <= t < items@.len() ==> ((#[trigger] items@[t]).caption is Some <==> t == n
                        - 1),
                forall|t: int|
                    0 <= t < items@.len() && t == n - 1 ==> (#[trigger] items@[t]).caption->0@
                        == text@,
            decreases files@.len(),
        {
            let ghost k = items@.len() as int;
            proof {
                assert(files@[0] == orig[k]);
            }
            let file = files.remove(0);
            let caption: Option<String> = if files.len() == 0 {
                Some(text.clone())
            } else {
                None
            };
            items.push(BatchItem { file, caption });
            proof {
                assert(files@ =~= orig.subrange(k + 1, n as int));
            }
        }
        proof {
            assert(items@.len() == n);
            assert forall|i: int| 0 <= i < datas.len() implies ((#[trigger] items@[i]).file.data@
                == datas[i] && items@[i].file.name@ == names[i]) by {
                assert(items@[i].file == orig[i]);
            }
        }
        DeliveryAction::SendBatch { items }
    }
}

} // verus!
