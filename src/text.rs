use vstd::prelude::*;
use vstd::string::*;

verus! {

/// A sort key: a display name, then an id that breaks ties between equal names.
pub type Label = (Seq<char>, Seq<char>);

/// Lexicographic order on texts, character by character (code point order,
/// which is also the byte order of their UTF-8 encodings).
pub open spec fn text_lt(a: Seq<char>, b: Seq<char>) -> bool
    decreases a.len(),
{
    if a.len() == 0 {
        b.len() > 0
    } else if b.len() == 0 {
        false
    } else if a[0] != b[0] {
        a[0] < b[0]
    } else {
        text_lt(a.drop_first(), b.drop_first())
    }
}

/// Order on labels: by name, and by id where the names are equal.
pub open spec fn label_lt(a: Label, b: Label) -> bool {
    text_lt(a.0, b.0) || (a.0 == b.0 && text_lt(a.1, b.1))
}

/// Every label stands before every later one.
pub open spec fn strictly_sorted(s: Seq<Label>) -> bool {
    forall|i: int, j: int| 0 <= i < j < s.len() ==> label_lt(#[trigger] s[i], #[trigger] s[j])
}

/// The one strictly sorted arrangement of a finite set of labels.
pub open spec fn arranged(labels: Set<Label>) -> Seq<Label> {
    choose|q: Seq<Label>| strictly_sorted(q) && q.to_set() == labels
}

pub proof fn lemma_text_lt_irreflexive(a: Seq<char>)
    ensures
        !text_lt(a, a),
    decreases a.len(),
{
    if a.len() > 0 {
        lemma_text_lt_irreflexive(a.drop_first());
    }
}

pub proof fn lemma_text_lt_total(a: Seq<char>, b: Seq<char>)
    ensures
        a != b ==> text_lt(a, b) || text_lt(b, a),
        !(text_lt(a, b) && text_lt(b, a)),
    decreases a.len(),
{
    if a.len() > 0 && b.len() > 0 {
        lemma_text_lt_total(a.drop_first(), b.drop_first());
        if a[0] == b[0] && a != b {
            assert(a.drop_first() != b.drop_first()) by {
                if a.drop_first() == b.drop_first() {
                    assert(a =~= seq![a[0]] + a.drop_first());
                    assert(b =~= seq![b[0]] + b.drop_first());
                }
            }
        }
    } else if a.len() == 0 && b.len() == 0 {
        assert(a =~= b);
    }
}

pub proof fn lemma_text_lt_transitive(a: Seq<char>, b: Seq<char>, c: Seq<char>)
    requires
        text_lt(a, b),
        text_lt(b, c),
    ensures
        text_lt(a, c),
    decreases a.len(),
{
    if a.len() > 0 && b.len() > 0 && c.len() > 0 && a[0] == b[0] && b[0] == c[0] {
        lemma_text_lt_transitive(a.drop_first(), b.drop_first(), c.drop_first());
    }
}

pub proof fn lemma_label_lt_total(a: Label, b: Label)
    ensures
        a != b ==> label_lt(a, b) || label_lt(b, a),
        !(label_lt(a, b) && label_lt(b, a)),
        !label_lt(a, a),
{
    lemma_text_lt_total(a.0, b.0);
    lemma_text_lt_total(a.1, b.1);
    lemma_text_lt_irreflexive(a.0);
    lemma_text_lt_irreflexive(a.1);
}

pub proof fn lemma_label_lt_transitive(a: Label, b: Label, c: Label)
    requires
        label_lt(a, b),
        label_lt(b, c),
    ensures
        label_lt(a, c),
{
    if text_lt(a.0, b.0) && text_lt(b.0, c.0) {
        lemma_text_lt_transitive(a.0, b.0, c.0);
    } else if text_lt(a.1, b.1) && text_lt(b.1, c.1) {
        lemma_text_lt_transitive(a.1, b.1, c.1);
    }
}

/// Two strictly sorted sequences that hold the same labels are the same sequence.
pub proof fn lemma_sorted_unique(p: Seq<Label>, q: Seq<Label>)
    requires
        strictly_sorted(p),
        strictly_sorted(q),
        p.to_set() == q.to_set(),
    ensures
        p == q,
    decreases p.len(),
{
    if p.len() == 0 {
        if q.len() > 0 {
            assert(q.to_set().contains(q[0]));
        }
        assert(p =~= q);
    } else {
        assert(p.to_set().contains(p[0]));
        assert(q.len() > 0) by {
            if q.len() == 0 {
                assert(q.to_set().contains(p[0]));
            }
        }
        // Both heads are the least label of the set.
        assert(p[0] == q[0]) by {
            assert(q.to_set().contains(p[0]));
            assert(p.to_set().contains(q[0]));
            let i = choose|i: int| 0 <= i < q.len() && q[i] == p[0];
            let j = choose|j: int| 0 <= j < p.len() && p[j] == q[0];
            lemma_label_lt_total(p[0], q[0]);
            if p[0] != q[0] {
                assert(i > 0 && j > 0);
                assert(label_lt(q[0], q[i]));
                assert(label_lt(p[0], p[j]));
            }
        }
        let p1 = p.drop_first();
        let q1 = q.drop_first();
        assert(strictly_sorted(p1));
        assert(strictly_sorted(q1));
        assert(p1.to_set() =~= q1.to_set()) by {
            assert forall|x: Label| p1.to_set().contains(x) implies q1.to_set().contains(x) by {
                let i = choose|i: int| 0 <= i < p1.len() && p1[i] == x;
                assert(p[i + 1] == x);
                assert(label_lt(p[0], x));
                lemma_label_lt_total(p[0], x);
                assert(q.to_set().contains(x));
                let j = choose|j: int| 0 <= j < q.len() && q[j] == x;
                assert(j != 0);
                assert(q1[j - 1] == x);
            }
            assert forall|x: Label| q1.to_set().contains(x) implies p1.to_set().contains(x) by {
                let i = choose|i: int| 0 <= i < q1.len() && q1[i] == x;
                assert(q[i + 1] == x);
                assert(label_lt(q[0], x));
                lemma_label_lt_total(q[0], x);
                assert(p.to_set().contains(x));
                let j = choose|j: int| 0 <= j < p.len() && p[j] == x;
                assert(j != 0);
                assert(p1[j - 1] == x);
            }
        }
        lemma_sorted_unique(p1, q1);
        assert(p =~= seq![p[0]] + p1);
        assert(q =~= seq![q[0]] + q1);
    }
}

/// A strictly sorted sequence is the arrangement of its own labels.
pub proof fn lemma_arranged(q: Seq<Label>)
    requires
        strictly_sorted(q),
    ensures
        arranged(q.to_set()) == q,
{
    let a = arranged(q.to_set());
    assert(strictly_sorted(a) && a.to_set() == q.to_set());
    lemma_sorted_unique(a, q);
}

/// Whether `a` comes before `b` in text order.
pub fn text_less(a: &str, b: &str) -> (r: bool)
    ensures
        r == text_lt(a@, b@),
{
    let na = a.unicode_len();
    let nb = b.unicode_len();
    let mut i: usize = 0;
    assert(a@.skip(0) =~= a@);
    assert(b@.skip(0) =~= b@);
    while i < na && i < nb
        invariant
            na == a@.len(),
            nb == b@.len(),
            i <= na,
            i <= nb,
            text_lt(a@, b@) == text_lt(a@.skip(i as int), b@.skip(i as int)),
        decreases na - i,
    {
        let ca = a.get_char(i);
        let cb = b.get_char(i);
        if ca != cb {
            return ca < cb;
        }
        assert(a@.skip(i as int).drop_first() =~= a@.skip(i + 1));
        assert(b@.skip(i as int).drop_first() =~= b@.skip(i + 1));
        i = i + 1;
    }
    i < nb
}

/// Whether the label `(an, ai)` comes before the label `(bn, bi)`.
pub fn label_less(an: &str, ai: &str, bn: &str, bi: &str) -> (r: bool)
    ensures
        r == label_lt((an@, ai@), (bn@, bi@)),
{
    if text_less(an, bn) {
        true
    } else if text_less(bn, an) {
        false
    } else {
        proof {
            lemma_text_lt_total(an@, bn@);
        }
        text_less(ai, bi)
    }
}

} // verus!
