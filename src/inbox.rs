use vstd::prelude::*;
use vstd::string::StrSliceExecFns;

verus! {

broadcast use vstd::seq_lib::group_to_multiset_ensures, vstd::seq_lib::to_multiset_insert;

/// Lexicographic order on texts, by code point; it is the byte order of their
/// UTF-8 encodings, so the order in which file names in one directory sort as
/// paths.
pub open spec fn text_le(a: Seq<char>, b: Seq<char>) -> bool
    decreases a.len(),
{
    if a.len() == 0 {
        true
    } else if b.len() == 0 {
        false
    } else if (a[0] as u32) < (b[0] as u32) {
        true
    } else if (a[0] as u32) > (b[0] as u32) {
        false
    } else {
        text_le(a.drop_first(), b.drop_first())
    }
}

/// Whether the names stand in ascending order.
pub open spec fn in_order(names: Seq<String>) -> bool {
    forall|j: int, k: int| 0 <= j < k < names.len() ==> text_le(names[j]@, names[k]@)
}

proof fn lemma_text_le_total(a: Seq<char>, b: Seq<char>)
    ensures
        text_le(a, b) || text_le(b, a),
    decreases a.len(),
{
    if a.len() > 0 && b.len() > 0 && a[0] as u32 == b[0] as u32 {
        lemma_text_le_total(a.drop_first(), b.drop_first());
    }
}

proof fn lemma_text_le_transitive(a: Seq<char>, b: Seq<char>, c: Seq<char>)
    requires
        text_le(a, b),
        text_le(b, c),
    ensures
        text_le(a, c),
    decreases a.len(),
{
    if a.len() > 0 && b.len() > 0 && c.len() > 0 && a[0] as u32 == b[0] as u32 && b[0] as u32
        == c[0] as u32 {
        lemma_text_le_transitive(a.drop_first(), b.drop_first(), c.drop_first());
    }
}

/// Compares two texts in the order of `text_le`.
pub fn text_less_eq(a: &str, b: &str) -> (r: bool)
    ensures
        r == text_le(a@, b@),
{
    let la = a.unicode_len();
    let lb = b.unicode_len();
    let mut i: usize = 0;
    assert(a@.skip(0) =~= a@);
    assert(b@.skip(0) =~= b@);
    while i < la && i < lb
        invariant
            la == a@.len(),
            lb == b@.len(),
            0 <= i <= la,
            i <= lb,
            text_le(a@, b@) == text_le(a@.skip(i as int), b@.skip(i as int)),
        decreases la - i,
    {
        let ca = a.get_char(i);
        let cb = b.get_char(i);
        if (ca as u32) < (cb as u32) {
            return true;
        } else if (ca as u32) > (cb as u32) {
            return false;
        }
        assert(a@.skip(i as int).drop_first() =~= a@.skip(i + 1));
        assert(b@.skip(i as int).drop_first() =~= b@.skip(i + 1));
        i = i + 1;
    }
    i == la
}

/// The order in which the inbox's documents are read: their names ascending,
/// each name kept as often as it was given.
pub fn inbox_order(names: Vec<String>) -> (r: Vec<String>)
    ensures
        in_order(r@),
        r@.to_multiset() == names@.to_multiset(),
{
    let mut sorted: Vec<String> = Vec::new();
    let mut i: usize = 0;
    while i < names.len()
        invariant
            0 <= i <= names.len(),
            in_order(sorted@),
            sorted@.to_multiset() == names@.take(i as int).to_multiset(),
        decreases names.len() - i,
    {
        let name = names[i].clone();
        let mut pos: usize = 0;
        while pos < sorted.len() && text_less_eq(sorted[pos].as_str(), name.as_str())
            invariant
                0 <= pos <= sorted.len(),
                forall|j: int| 0 <= j < pos ==> text_le(#[trigger] sorted@[j]@, name@),
            decreases sorted.len() - pos,
        {
            pos = pos + 1;
        }
        proof {
            if pos < sorted.len() {
                lemma_text_le_total(sorted@[pos as int]@, name@);
                assert forall|k: int| pos <= k < sorted.len() implies text_le(
                    name@,
                    #[trigger] sorted@[k]@,
                ) by {
                    if k > pos {
                        lemma_text_le_transitive(name@, sorted@[pos as int]@, sorted@[k]@);
                    }
                }
            }
        }
        let ghost prev = sorted@;
        sorted.insert(pos, name);
        proof {
            assert(names@.take(i + 1) =~= names@.take(i as int).push(names@[i as int]));
            assert forall|j: int, k: int| 0 <= j < k < sorted@.len() implies text_le(
                sorted@[j]@,
                sorted@[k]@,
            ) by {
                if j < pos && k > pos {
                    lemma_text_le_transitive(prev[j]@, name@, prev[k - 1]@);
                }
            }
        }
        i = i + 1;
    }
    assert(names@.take(names.len() as int) =~= names@);
    sorted
}

} // verus!
