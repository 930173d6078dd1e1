//! What the drawing of a plan shows: the drawings of its inputs, each moved to
//! the right under the node that takes them, and so the whole tree.

use crate::lazy::Outline;
use vstd::prelude::*;

verus! {

/// A text is on one line exactly if it holds no line break, and the labels of a
/// plan are if each label is.
pub proof fn law_one_line_labels(text: Seq<char>, left: Outline, right: Outline)
    ensures
        crate::lazy::one_line(text) <==> !text.contains('\n'),
        crate::lazy::one_line_labels(Outline::Leaf(text)) <==> !text.contains('\n'),
        crate::lazy::one_line_labels(Outline::One(text, Box::new(left))) <==> !text.contains('\n')
            && crate::lazy::one_line_labels(left),
        crate::lazy::one_line_labels(Outline::Two(text, Box::new(left), Box::new(right)))
            <==> !text.contains('\n') && crate::lazy::one_line_labels(left)
            && crate::lazy::one_line_labels(right),
{
    if text.contains('\n') {
        let i = choose|i: int| 0 <= i < text.len() && text[i] == '\n';
        assert(text[i] == '\n');
    }
}

/// Indenting keeps a text as it is where it starts no line, and puts `by` in
/// front of each further line.
pub proof fn law_indented(text: Seq<char>, c: char, by: Seq<char>)
    ensures
        indented(Seq::empty(), by) == Seq::<char>::empty(),
        text.len() > 0 && text.last() == '\n' ==> indented(text.push(c), by) == (indented(text, by)
            + by).push(c),
        !(text.len() > 0 && text.last() == '\n') ==> indented(text.push(c), by) == indented(
            text,
            by,
        ).push(c),
{
    let longer = text.push(c);
    assert(longer.drop_last() =~= text);
    if text.len() > 0 {
        assert(longer[longer.len() - 2] == text.last());
    }
    assert(indented(text, by) + by + seq![c] =~= (indented(text, by) + by).push(c));
    assert(indented(text, by) + seq![c] =~= indented(text, by).push(c));
}

/// A text with `by` put in front of every line but the first.
pub open spec fn indented(text: Seq<char>, by: Seq<char>) -> Seq<char>
    decreases text.len(),
{
    if text.len() == 0 {
        Seq::empty()
    } else if text.len() > 1 && text[text.len() - 2] == '\n' {
        indented(text.drop_last(), by) + by + seq![text.last()]
    } else {
        indented(text.drop_last(), by) + seq![text.last()]
    }
}

/// Indenting a text is indenting its parts; a part that starts a line is moved
/// itself.
proof fn lemma_indented_add(a: Seq<char>, b: Seq<char>, by: Seq<char>)
    ensures
        indented(a + b, by) == indented(a, by) + (if a.len() > 0 && a.last() == '\n' && b.len()
            > 0 {
            by
        } else {
            Seq::empty()
        }) + indented(b, by),
    decreases b.len(),
{
    if b.len() == 0 {
        assert(a + b =~= a);
        assert(indented(a + b, by) =~= indented(a, by) + Seq::<char>::empty() + indented(b, by));
    } else {
        lemma_indented_add(a, b.drop_last(), by);
        assert((a + b).drop_last() =~= a + b.drop_last());
        if b.len() == 1 {
            assert(b.drop_last() =~= Seq::<char>::empty());
        }
        assert(indented(a + b, by) =~= indented(a, by) + (if a.len() > 0 && a.last() == '\n' {
            by
        } else {
            Seq::empty()
        }) + indented(b, by));
    }
}

/// Indenting a text without line breaks changes nothing.
proof fn lemma_indented_line(text: Seq<char>, by: Seq<char>)
    requires
        crate::lazy::one_line(text),
    ensures
        indented(text, by) == text,
    decreases text.len(),
{
    if text.len() > 0 {
        lemma_indented_line(text.drop_last(), by);
        assert(text.drop_last() + seq![text.last()] =~= text);
    }
}

proof fn lemma_indented_break(by: Seq<char>)
    ensures
        "\n"@ == seq!['\n'],
        indented("\n"@, by) == "\n"@,
{
    reveal_strlit("\n");
    reveal_with_fuel(indented, 2);
    assert("\n"@ =~= seq!['\n']);
    assert("\n"@.drop_last() =~= Seq::<char>::empty());
    assert(indented("\n"@, by) =~= "\n"@);
}

/// Indenting a line, a line break and what follows moves what follows.
proof fn lemma_indented_below(
    label: Seq<char>,
    prefix: Seq<char>,
    connector: Seq<char>,
    below: Seq<char>,
    by: Seq<char>,
)
    requires
        crate::lazy::one_line(label),
        crate::lazy::one_line(prefix),
        crate::lazy::one_line(connector),
        connector.len() > 0,
    ensures
        indented(label + "\n"@ + prefix + connector + below, by) == label + "\n"@ + (by + prefix)
            + connector + indented(below, by),
{
    let gutter = prefix + connector;
    let first = label + "\n"@;
    lemma_indented_break(by);
    lemma_indented_line(label, by);
    lemma_indented_line(gutter, by);
    lemma_indented_add(label, "\n"@, by);
    lemma_indented_add(first, gutter, by);
    lemma_indented_add(first + gutter, below, by);
    assert(indented(first, by) =~= first);
    assert(indented(first + gutter, by) =~= first + by + gutter);
    assert(gutter.last() == connector.last());
    assert(label + "\n"@ + prefix + connector + below =~= first + gutter + below);
    assert(first + by + gutter + indented(below, by) =~= label + "\n"@ + (by + prefix) + connector
        + indented(below, by));
    assert(indented(first + gutter + below, by) =~= first + by + gutter + indented(below, by));
}

/// Indenting lines and a further part moves that part.
proof fn lemma_indented_further(
    half: Seq<char>,
    prefix: Seq<char>,
    connector: Seq<char>,
    lower: Seq<char>,
    by: Seq<char>,
)
    requires
        half.len() > 0,
        half.last() == '\n',
        crate::lazy::one_line(prefix),
        crate::lazy::one_line(connector),
        connector.len() > 0,
    ensures
        indented(half + prefix + connector + lower, by) == indented(half, by) + (by + prefix)
            + connector + indented(lower, by),
{
    let gutter = prefix + connector;
    lemma_indented_line(gutter, by);
    lemma_indented_add(half, gutter, by);
    lemma_indented_add(half + gutter, lower, by);
    assert((half + gutter).last() == connector.last());
    assert(half + prefix + connector + lower =~= half + gutter + lower);
    assert(indented(half + gutter, by) =~= indented(half, by) + by + gutter);
    assert(indented(half + gutter + lower, by) =~= indented(half, by) + by + gutter + indented(
        lower,
        by,
    ));
    assert(indented(half, by) + by + gutter + indented(lower, by) =~= indented(half, by) + (by
        + prefix) + connector + indented(lower, by));
}

proof fn lemma_connectors()
    ensures
        crate::lazy::one_line("└─ "@),
        crate::lazy::one_line("├─ "@),
        crate::lazy::one_line("   "@),
        crate::lazy::one_line("│  "@),
        "└─ "@.len() == 3,
        "├─ "@.len() == 3,
        "   "@.len() == 3,
        "│  "@.len() == 3,
{
    reveal_strlit("└─ ");
    reveal_strlit("├─ ");
    reveal_strlit("   ");
    reveal_strlit("│  ");
}

/// The prefix of a drawing stands in front of every line but the first, and
/// nothing else depends on it.
pub proof fn law_prefix_is_an_indentation(outline: Outline, prefix: Seq<char>, by: Seq<char>)
    requires
        crate::lazy::one_line_labels(outline),
        crate::lazy::one_line(prefix),
    ensures
        crate::lazy::lines(outline, by + prefix) == indented(
            crate::lazy::lines(outline, prefix),
            by,
        ),
    decreases outline,
{
    lemma_connectors();
    match outline {
        Outline::Leaf(label) => {
            lemma_indented_break(by);
            lemma_indented_line(label, by);
            lemma_indented_add(label, "\n"@, by);
            assert(indented(label + "\n"@, by) =~= label + "\n"@);
        },
        Outline::One(label, input) => {
            law_prefix_is_an_indentation(*input, prefix + "   "@, by);
            let below = crate::lazy::lines(*input, prefix + "   "@);
            assert(by + (prefix + "   "@) =~= by + prefix + "   "@);
            lemma_indented_below(label, prefix, "└─ "@, below, by);
        },
        Outline::Two(label, left, right) => {
            law_prefix_is_an_indentation(*left, prefix + "│  "@, by);
            law_prefix_is_an_indentation(*right, prefix + "   "@, by);
            let upper = crate::lazy::lines(*left, prefix + "│  "@);
            let lower = crate::lazy::lines(*right, prefix + "   "@);
            crate::lazy::lemma_last_line_break(*left, prefix + "│  "@);
            assert(by + (prefix + "   "@) =~= by + prefix + "   "@);
            assert(by + (prefix + "│  "@) =~= by + prefix + "│  "@);
            let half = label + "\n"@ + prefix + "├─ "@ + upper;
            assert(half.last() == upper.last());
            lemma_indented_below(label, prefix, "├─ "@, upper, by);
            lemma_indented_further(half, prefix, "└─ "@, lower, by);
        },
    }
}

/// A plan is drawn as its own line and the drawings of its inputs, each behind
/// a connector and moved to the right by three characters, line by line.
pub proof fn law_inputs_are_drawn_inside(label: Seq<char>, left: Outline, right: Outline)
    requires
        crate::lazy::one_line_labels(left),
        crate::lazy::one_line_labels(right),
    ensures
        crate::lazy::lines(Outline::Leaf(label), Seq::empty()) == label + "\n"@,
        crate::lazy::lines(Outline::One(label, Box::new(left)), Seq::empty()) == label + "\n└─ "@
            + indented(crate::lazy::lines(left, Seq::empty()), "   "@),
        crate::lazy::lines(Outline::Two(label, Box::new(left), Box::new(right)), Seq::empty())
            == label + "\n├─ "@ + indented(crate::lazy::lines(left, Seq::empty()), "│  "@) + "└─ "@
            + indented(crate::lazy::lines(right, Seq::empty()), "   "@),
{
    let none = Seq::<char>::empty();
    reveal_strlit("\n");
    reveal_strlit("\n└─ ");
    reveal_strlit("\n├─ ");
    reveal_strlit("└─ ");
    reveal_strlit("├─ ");
    reveal_strlit("   ");
    reveal_strlit("│  ");
    law_prefix_is_an_indentation(left, none, "   "@);
    law_prefix_is_an_indentation(left, none, "│  "@);
    law_prefix_is_an_indentation(right, none, "   "@);
    assert("   "@ + none =~= "   "@);
    assert("│  "@ + none =~= "│  "@);
    assert(none + "   "@ =~= "   "@);
    assert(none + "│  "@ =~= "│  "@);
    assert("\n"@ + none + "└─ "@ =~= "\n└─ "@);
    assert("\n"@ + none + "├─ "@ =~= "\n├─ "@);
    assert(crate::lazy::lines(Outline::One(label, Box::new(left)), none) =~= label + "\n└─ "@
        + crate::lazy::lines(left, "   "@));
    assert(crate::lazy::lines(Outline::Two(label, Box::new(left), Box::new(right)), none) =~= label
        + "\n├─ "@ + crate::lazy::lines(left, "│  "@) + "└─ "@ + crate::lazy::lines(right, "   "@));
}

/// Behind each line break but the last stands the prefix.
pub proof fn law_prefix_behind_every_break(outline: Outline, prefix: Seq<char>, i: int)
    requires
        crate::lazy::one_line_labels(outline),
        crate::lazy::one_line(prefix),
        0 <= i < crate::lazy::lines(outline, prefix).len() - 1,
        crate::lazy::lines(outline, prefix)[i] == '\n',
    ensures
        i + 1 + prefix.len() < crate::lazy::lines(outline, prefix).len(),
        crate::lazy::lines(outline, prefix).subrange(i + 1, i + 1 + prefix.len()) == prefix,
    decreases outline,
{
    reveal_strlit("\n");
    reveal_strlit("└─ ");
    reveal_strlit("├─ ");
    reveal_strlit("   ");
    reveal_strlit("│  ");
    let text = crate::lazy::lines(outline, prefix);
    match outline {
        Outline::Leaf(label) => {
            assert(text[i] == label[i]);
        },
        Outline::One(label, input) => {
            let deeper = prefix + "   "@;
            let below = crate::lazy::lines(*input, deeper);
            let at = label.len() + 1 + prefix.len() + 3;
            if i < label.len() {
                assert(text[i] == label[i]);
            } else if i == label.len() {
                assert(text.subrange(i + 1, i + 1 + prefix.len()) =~= prefix);
            } else if i < label.len() + 1 + prefix.len() {
                assert(text[i] == prefix[i - label.len() - 1]);
            } else if i < at {
                assert(text[i] == "└─ "@[i - label.len() - 1 - prefix.len()]);
            } else {
                assert(text[i] == below[i - at]);
                law_prefix_behind_every_break(*input, deeper, i - at);
                let seen = below.subrange(i - at + 1, i - at + 1 + deeper.len());
                assert(text.subrange(i + 1, i + 1 + prefix.len()) =~= seen.subrange(
                    0,
                    prefix.len() as int,
                ));
                assert(deeper.subrange(0, prefix.len() as int) =~= prefix);
            }
        },
        Outline::Two(label, left, right) => {
            let upper_prefix = prefix + "│  "@;
            let lower_prefix = prefix + "   "@;
            let upper = crate::lazy::lines(*left, upper_prefix);
            let lower = crate::lazy::lines(*right, lower_prefix);
            let at = label.len() + 1 + prefix.len() + 3;
            let middle = at + upper.len();
            let next = middle + prefix.len() + 3;
            if i < label.len() {
                assert(text[i] == label[i]);
            } else if i == label.len() {
                assert(text.subrange(i + 1, i + 1 + prefix.len()) =~= prefix);
            } else if i < label.len() + 1 + prefix.len() {
                assert(text[i] == prefix[i - label.len() - 1]);
            } else if i < at {
                assert(text[i] == "├─ "@[i - label.len() - 1 - prefix.len()]);
            } else if i < middle - 1 {
                assert(text[i] == upper[i - at]);
                law_prefix_behind_every_break(*left, upper_prefix, i - at);
                let seen = upper.subrange(i - at + 1, i - at + 1 + upper_prefix.len());
                assert(text.subrange(i + 1, i + 1 + prefix.len()) =~= seen.subrange(
                    0,
                    prefix.len() as int,
                ));
                assert(upper_prefix.subrange(0, prefix.len() as int) =~= prefix);
            } else if i == middle - 1 {
                crate::lazy::lemma_last_line_break(*left, upper_prefix);
                assert(text.subrange(i + 1, i + 1 + prefix.len()) =~= prefix);
            } else if i < middle + prefix.len() {
                assert(text[i] == prefix[i - middle]);
            } else if i < next {
                assert(text[i] == "└─ "@[i - middle - prefix.len()]);
            } else {
                assert(text[i] == lower[i - next]);
                law_prefix_behind_every_break(*right, lower_prefix, i - next);
                let seen = lower.subrange(i - next + 1, i - next + 1 + lower_prefix.len());
                assert(text.subrange(i + 1, i + 1 + prefix.len()) =~= seen.subrange(
                    0,
                    prefix.len() as int,
                ));
                assert(lower_prefix.subrange(0, prefix.len() as int) =~= prefix);
            }
        },
    }
}

/// What a drawing shows behind the line of the last operation.
spec fn behind_root(outline: Outline, prefix: Seq<char>) -> Seq<char> {
    match outline {
        Outline::Leaf(_) => Seq::empty(),
        Outline::One(_, input) => prefix + "└─ "@ + crate::lazy::lines(*input, prefix + "   "@),
        Outline::Two(_, left, right) => prefix + "├─ "@ + crate::lazy::lines(
            *left,
            prefix + "│  "@,
        ) + prefix + "└─ "@ + crate::lazy::lines(*right, prefix + "   "@),
    }
}

/// Texts that start with lines and are equal are equal line by line.
proof fn lemma_first_lines(a: Seq<char>, b: Seq<char>, c: Seq<char>, d: Seq<char>)
    requires
        crate::lazy::one_line(a),
        crate::lazy::one_line(b),
        a + seq!['\n'] + c == b + seq!['\n'] + d,
    ensures
        a == b,
        c == d,
{
    let left = a + seq!['\n'] + c;
    let right = b + seq!['\n'] + d;
    if a.len() < b.len() {
        assert(left[a.len() as int] == '\n');
        assert(right[a.len() as int] == b[a.len() as int]);
    }
    if b.len() < a.len() {
        assert(right[b.len() as int] == '\n');
        assert(left[b.len() as int] == a[b.len() as int]);
    }
    assert(left.take(a.len() as int) =~= a);
    assert(right.take(b.len() as int) =~= b);
    assert(left.skip(a.len() as int + 1) =~= c);
    assert(right.skip(b.len() as int + 1) =~= d);
}

/// The drawings of two left inputs are equally long if the drawings as a whole
/// are equal.
proof fn lemma_left_ends(
    a: Outline,
    b: Outline,
    prefix: Seq<char>,
    rest_a: Seq<char>,
    rest_b: Seq<char>,
)
    requires
        crate::lazy::one_line_labels(b),
        crate::lazy::one_line(prefix),
        crate::lazy::lines(a, prefix + "│  "@) + prefix + "└─ "@ + rest_a == crate::lazy::lines(
            b,
            prefix + "│  "@,
        ) + prefix + "└─ "@ + rest_b,
    ensures
        crate::lazy::lines(a, prefix + "│  "@).len() >= crate::lazy::lines(
            b,
            prefix + "│  "@,
        ).len(),
{
    reveal_strlit("└─ ");
    reveal_strlit("│  ");
    let deeper = prefix + "│  "@;
    let upper_a = crate::lazy::lines(a, deeper);
    let upper_b = crate::lazy::lines(b, deeper);
    let left = upper_a + prefix + "└─ "@ + rest_a;
    let right = upper_b + prefix + "└─ "@ + rest_b;
    if upper_a.len() < upper_b.len() {
        crate::lazy::lemma_last_line_break(a, deeper);
        let i = upper_a.len() - 1;
        assert(left[i] == upper_a[i]);
        assert(right[i] == upper_b[i]);
        law_prefix_behind_every_break(b, deeper, i);
        let at = i + 1 + prefix.len();
        let seen = upper_b.subrange(i + 1, i + 1 + deeper.len());
        assert(seen[prefix.len() as int] == upper_b[at]);
        assert(deeper[prefix.len() as int] == '│');
        assert(left[at] == '└');
        assert(right[at] == upper_b[at]);
    }
}

/// Equal drawings of two inputs are equal input by input.
proof fn lemma_two_halves(
    a: Outline,
    b: Outline,
    prefix: Seq<char>,
    rest_a: Seq<char>,
    rest_b: Seq<char>,
)
    requires
        crate::lazy::one_line_labels(a),
        crate::lazy::one_line_labels(b),
        crate::lazy::one_line(prefix),
        crate::lazy::lines(a, prefix + "│  "@) + prefix + "└─ "@ + rest_a == crate::lazy::lines(
            b,
            prefix + "│  "@,
        ) + prefix + "└─ "@ + rest_b,
    ensures
        crate::lazy::lines(a, prefix + "│  "@) == crate::lazy::lines(b, prefix + "│  "@),
        rest_a == rest_b,
{
    lemma_left_ends(a, b, prefix, rest_a, rest_b);
    lemma_left_ends(b, a, prefix, rest_b, rest_a);
    let l = crate::lazy::lines(a, prefix + "│  "@);
    let o = crate::lazy::lines(b, prefix + "│  "@);
    let left = l + prefix + "└─ "@ + rest_a;
    let right = o + prefix + "└─ "@ + rest_b;
    let from = l.len() as int + prefix.len() + "└─ "@.len();
    assert(left.take(l.len() as int) =~= l);
    assert(right.take(o.len() as int) =~= o);
    assert(left.skip(from) =~= rest_a);
    assert(right.skip(from) =~= rest_b);
}

/// What follows the line of the last operation starts as the number of inputs
/// says.
proof fn lemma_behind_root(outline: Outline, prefix: Seq<char>)
    ensures
        crate::lazy::lines(outline, prefix) == crate::lazy::root_label(outline) + seq!['\n']
            + behind_root(outline, prefix),
        outline is Leaf ==> behind_root(outline, prefix).len() == 0,
        outline is One ==> behind_root(outline, prefix).len() > prefix.len() && behind_root(
            outline,
            prefix,
        )[prefix.len() as int] == '└',
        outline is Two ==> behind_root(outline, prefix).len() > prefix.len() && behind_root(
            outline,
            prefix,
        )[prefix.len() as int] == '├',
{
    reveal_strlit("\n");
    reveal_strlit("└─ ");
    reveal_strlit("├─ ");
    assert("\n"@ =~= seq!['\n']);
    assert(crate::lazy::lines(outline, prefix) =~= crate::lazy::root_label(outline) + seq!['\n']
        + behind_root(outline, prefix));
}

/// The drawing determines the plan: plans of different shapes, or with other
/// labels, are drawn differently.
#[verifier::spinoff_prover]
pub proof fn law_drawing_determines_the_plan(a: Outline, b: Outline, prefix: Seq<char>)
    requires
        crate::lazy::one_line_labels(a),
        crate::lazy::one_line_labels(b),
        crate::lazy::one_line(prefix),
        crate::lazy::lines(a, prefix) == crate::lazy::lines(b, prefix),
    ensures
        a == b,
    decreases a,
{
    let below_a = behind_root(a, prefix);
    let below_b = behind_root(b, prefix);
    lemma_connectors();
    lemma_behind_root(a, prefix);
    lemma_behind_root(b, prefix);
    lemma_first_lines(crate::lazy::root_label(a), crate::lazy::root_label(b), below_a, below_b);
    let at = prefix.len() + 3;
    match (a, b) {
        (Outline::One(_, input), Outline::One(_, other)) => {
            let deeper = prefix + "   "@;
            assert(below_a.skip(at as int) =~= crate::lazy::lines(*input, deeper));
            assert(below_b.skip(at as int) =~= crate::lazy::lines(*other, deeper));
            law_drawing_determines_the_plan(*input, *other, deeper);
        },
        (Outline::Two(_, left, right), Outline::Two(_, other_left, other_right)) => {
            let upper = prefix + "│  "@;
            let deeper = prefix + "   "@;
            let r = crate::lazy::lines(*right, deeper);
            let q = crate::lazy::lines(*other_right, deeper);
            assert(below_a.skip(at as int) =~= crate::lazy::lines(*left, upper) + prefix + "└─ "@
                + r);
            assert(below_b.skip(at as int) =~= crate::lazy::lines(*other_left, upper) + prefix
                + "└─ "@ + q);
            lemma_two_halves(*left, *other_left, prefix, r, q);
            law_drawing_determines_the_plan(*left, *other_left, upper);
            law_drawing_determines_the_plan(*right, *other_right, deeper);
        },
        _ => {},
    }
}

} // verus!
