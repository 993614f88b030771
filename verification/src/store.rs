//! The collection store's value-level operations: the initial document,
//! loading, and the reload-then-rewrite append. File I/O itself stays
//! with the caller; these functions map document text to card values
//! and back.

use vstd::prelude::*;

use crate::card::{models, models_wf, CardModel, Flashcard};
use crate::codec::{encode_cards, parse_cards, spec_encode_cards, spec_parse, scan_card,
    scan_cards_rest};

verus! {

/// Why a store operation failed: the file could not be read or
/// written, or its content does not describe a card collection.
#[derive(Clone, Copy, Debug, PartialEq, Eq, Structural)]
pub enum StoreError {
    IoFailure,
    CorruptStore,
}

proof fn lemma_scan_cards_rest_wf(s: Seq<char>, i: int, acc: Seq<CardModel>)
    requires
        0 <= i <= s.len(),
        models_wf(acc),
    ensures
        scan_cards_rest(s, i, acc) matches Some(p) ==> models_wf(p.0),
    decreases s.len() - i,
{
    crate::codec::lemma_skip_gaps(s, i);
    let k = crate::codec::skip_gaps(s, i);
    if k < s.len() && s[k] == ',' {
        crate::codec::lemma_scan_card(s, k + 1);
        match scan_card(s, k + 1) {
            Some(p) => {
                assert(models_wf(acc.push(p.0))) by {
                    assert(forall|j: int|
                        0 <= j < acc.len() ==> (#[trigger] acc.push(p.0)[j]) == acc[j]);
                }
                lemma_scan_cards_rest_wf(s, p.1, acc.push(p.0));
            },
            None => {},
        }
    }
}

/// Every card a readable document describes is well-formed: in
/// particular its correct-answer index is in range. A document whose
/// index is out of range does not read at all.
pub proof fn lemma_parse_wf(s: Seq<char>)
    ensures
        spec_parse(s) matches Some(ms) ==> models_wf(ms),
{
    crate::codec::lemma_skip_gaps(s, 0);
    let k = crate::codec::skip_gaps(s, 0);
    if k < s.len() && s[k] == '[' {
        crate::codec::lemma_skip_gaps(s, k + 1);
        let k1 = crate::codec::skip_gaps(s, k + 1);
        if k1 < s.len() && s[k1] == ']' {
        } else {
            crate::codec::lemma_scan_card(s, k1);
            match scan_card(s, k1) {
                Some(p0) => {
                    assert(models_wf(seq![p0.0])) by {
                        assert(seq![p0.0][0] == p0.0);
                    }
                    lemma_scan_cards_rest_wf(s, p0.1, seq![p0.0]);
                },
                None => {},
            }
        }
    }
}

/// Appending reads back exactly: the document a successful
/// `append_card` writes for the cards `ms` plus `card` is read by the
/// parser as those cards again — length grown by one, insertion order
/// kept, every entry unchanged.
pub proof fn lemma_append_reads_back(ms: Seq<CardModel>, card: CardModel)
    requires
        models_wf(ms),
        card.wf(),
    ensures
        spec_parse(spec_encode_cards(ms.push(card))) == Some(ms.push(card)),
{
    assert(models_wf(ms.push(card))) by {
        assert(forall|j: int| 0 <= j < ms.len() ==> (#[trigger] ms.push(card)[j]) == ms[j]);
    }
    crate::codec::lemma_parse_of_encode(ms.push(card));
}

/// The freshly created store: an empty collection, stored as `[]`.
pub fn empty_store() -> (s: String)
    ensures
        s@ == spec_encode_cards(Seq::<CardModel>::empty()),
        spec_parse(s@) == Some(Seq::<CardModel>::empty()),
{
    let s = String::from_str("[]");
    proof {
        reveal_strlit("[]");
        lemma_empty_parses(s@);
    }
    s
}

proof fn lemma_empty_parses(s: Seq<char>)
    requires
        s.len() == 2,
        s[0] == '[',
        s[1] == ']',
    ensures
        spec_parse(s) == Some(Seq::<CardModel>::empty()),
{
    assert(crate::codec::skip_gaps(s, 0) == 0);
    assert(crate::codec::skip_gaps(s, 1) == 1);
    assert(crate::codec::skip_gaps(s, 2) == 2);
}

/// Deserializes a stored document to its card sequence. Returns
/// `CorruptStore` exactly when the text does not describe a
/// collection of well-formed cards.
pub fn load_cards(s: &str) -> (r: Result<Vec<Flashcard>, StoreError>)
    ensures
        (match r {
            Ok(cs) => spec_parse(s@) == Some(models(cs@)) && models_wf(models(cs@)),
            Err(e) => e == StoreError::CorruptStore && spec_parse(s@) is None,
        }),
{
    match parse_cards(s) {
        Some(cs) => {
            proof {
                lemma_parse_wf(s@);
            }
            Ok(cs)
        },
        None => Err(StoreError::CorruptStore),
    }
}

/// The reload-then-rewrite append: reads the collection out of the
/// current document text, appends `card`, and serializes the whole
/// collection again. The new document holds exactly the old cards,
/// in order, with `card` last.
pub fn append_card(s: &str, card: Flashcard) -> (r: Result<String, StoreError>)
    requires
        card@.wf(),
    ensures
        (match r {
            Ok(out) => spec_parse(s@) matches Some(ms) && out@ == spec_encode_cards(
                ms.push(card@),
            ),
            Err(e) => e == StoreError::CorruptStore && spec_parse(s@) is None,
        }),
{
    match parse_cards(s) {
        None => Err(StoreError::CorruptStore),
        Some(cs) => {
            proof {
                lemma_parse_wf(s@);
            }
            let ghost old_models = models(cs@);
            let ghost cm = card@;
            let mut cs2 = cs;
            cs2.push(card);
            proof {
                assert(models(cs2@) =~= old_models.push(cm));
                assert(forall|j: int|
                    0 <= j < cs2@.len() ==> (#[trigger] cs2@[j])@.wf()) by {
                    assert(forall|j: int|
                        0 <= j < cs2@.len() ==> models(cs2@)[j] == (#[trigger] cs2@[j])@);
                }
            }
            let out = encode_cards(&cs2);
            Ok(out)
        },
    }
}

} // verus!
