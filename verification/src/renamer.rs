//! Deconfliction: every class of marks gets one name, and no two classes
//! get the same. A name that is taken gets `$0`, `$1`, .. behind it, the
//! first that is free.

use vstd::prelude::*;
use vstd::string::*;
use vstd::set_lib::{lemma_int_range, lemma_len_subset, lemma_map_size, set_int_range};
use vstd::relations::injective_on;
use crate::symbol_box::{Mark, SymbolBox};

verus! {

/// The character of a decimal digit.
pub open spec fn digit_char(d: nat) -> char {
    if d == 0 {
        '0'
    } else if d == 1 {
        '1'
    } else if d == 2 {
        '2'
    } else if d == 3 {
        '3'
    } else if d == 4 {
        '4'
    } else if d == 5 {
        '5'
    } else if d == 6 {
        '6'
    } else if d == 7 {
        '7'
    } else if d == 8 {
        '8'
    } else {
        '9'
    }
}

/// The digit that a character stands for.
pub open spec fn digit_value(c: char) -> nat {
    if c == '0' {
        0
    } else if c == '1' {
        1
    } else if c == '2' {
        2
    } else if c == '3' {
        3
    } else if c == '4' {
        4
    } else if c == '5' {
        5
    } else if c == '6' {
        6
    } else if c == '7' {
        7
    } else if c == '8' {
        8
    } else {
        9
    }
}

/// A number in decimal digits.
pub open spec fn decimal(n: nat) -> Seq<char>
    decreases n,
{
    if n < 10 {
        seq![digit_char(n)]
    } else {
        decimal(n / 10).push(digit_char(n % 10))
    }
}

/// The number that decimal digits stand for.
pub open spec fn decimal_value(s: Seq<char>) -> nat
    decreases s.len(),
{
    if s.len() == 0 {
        0
    } else {
        decimal_value(s.drop_last()) * 10 + digit_value(s.last())
    }
}

/// The digits of a number stand for the number.
pub proof fn lemma_decimal_value(n: nat)
    ensures
        decimal_value(decimal(n)) == n,
        decimal(n).len() > 0,
    decreases n,
{
    if n < 10 {
        assert(decimal(n).drop_last() =~= Seq::<char>::empty());
        assert(decimal_value(Seq::<char>::empty()) == 0);
    } else {
        lemma_decimal_value(n / 10);
        assert(decimal(n).drop_last() =~= decimal(n / 10));
    }
}

/// The `k`-th name tried for `base`: `base` itself, then `base$0`, `base$1`, ..
pub open spec fn candidate(base: Seq<char>, k: nat) -> Seq<char> {
    if k == 0 {
        base
    } else {
        base + seq!['$'] + decimal((k - 1) as nat)
    }
}

/// Two candidates for one base are one name only where they are one candidate.
pub proof fn lemma_candidate_injective(base: Seq<char>, a: nat, b: nat)
    requires
        candidate(base, a) == candidate(base, b),
    ensures
        a == b,
{
    if a > 0 {
        lemma_decimal_value((a - 1) as nat);
    }
    if b > 0 {
        lemma_decimal_value((b - 1) as nat);
    }
    if a > 0 && b > 0 {
        let x = candidate(base, a);
        let y = candidate(base, b);
        assert(x.subrange(base.len() as int + 1, x.len() as int) =~= decimal((a - 1) as nat));
        assert(y.subrange(base.len() as int + 1, y.len() as int) =~= decimal((b - 1) as nat));
    } else if a > 0 {
        assert(candidate(base, a).len() > base.len());
    } else if b > 0 {
        assert(candidate(base, b).len() > base.len());
    }
}

/// Whether `name` is among the names given.
pub open spec fn name_used(names: Seq<Seq<char>>, name: Seq<char>) -> bool {
    exists|i: int| 0 <= i < names.len() && #[trigger] names[i] == name
}

/// Whether the `k`-th candidate is the first that is free.
pub open spec fn is_first_free(names: Seq<Seq<char>>, base: Seq<char>, k: nat) -> bool {
    &&& !name_used(names, candidate(base, k))
    &&& forall|j: nat| j < k ==> name_used(names, #[trigger] candidate(base, j))
}

/// The first candidate for `base` that is free.
pub open spec fn first_free(names: Seq<Seq<char>>, base: Seq<char>) -> nat {
    choose|k: nat| is_first_free(names, base, k)
}

/// Where the first `count` candidates are all used, there are at least `count` names.
pub proof fn lemma_candidates_bounded(names: Seq<Seq<char>>, base: Seq<char>, count: nat)
    requires
        forall|j: nat| j < count ==> name_used(names, #[trigger] candidate(base, j)),
    ensures
        count <= names.len(),
{
    let x = set_int_range(0, count as int);
    let f = |j: int| choose|i: int| 0 <= i < names.len() && names[i] == candidate(base, j as nat);
    lemma_int_range(0, count as int);
    assert forall|j: int| x.contains(j) implies 0 <= #[trigger] f(j) < names.len() && names[f(j)]
        == candidate(base, j as nat) by {
        assert(name_used(names, candidate(base, j as nat)));
    }
    assert(injective_on(f, x)) by {
        assert forall|a: int, b: int|
            x.contains(a) && x.contains(b) && #[trigger] f(a) == #[trigger] f(b) implies a == b by {
            assert(names[f(a)] == candidate(base, a as nat));
            assert(names[f(b)] == candidate(base, b as nat));
            lemma_candidate_injective(base, a as nat, b as nat);
        }
    }
    let y = x.map(f);
    lemma_map_size(x, y, f);
    let z = set_int_range(0, names.len() as int);
    lemma_int_range(0, names.len() as int);
    assert(y.subset_of(z)) by {
        assert forall|i: int| y.contains(i) implies z.contains(i) by {
            let j = choose|j: int| x.contains(j) && f(j) == i;
            assert(0 <= f(j) < names.len());
        }
    }
    lemma_len_subset(y, z);
}

/// Some candidate is free, and `first_free` is the first.
pub proof fn lemma_first_free(names: Seq<Seq<char>>, base: Seq<char>)
    ensures
        is_first_free(names, base, first_free(names, base)),
        first_free(names, base) <= names.len(),
{
    lemma_free_from(names, base, 0);
    let k = choose|k: nat| is_first_free(names, base, k);
    lemma_candidates_bounded(names, base, k);
}

proof fn lemma_free_from(names: Seq<Seq<char>>, base: Seq<char>, k: nat)
    requires
        forall|j: nat| j < k ==> name_used(names, #[trigger] candidate(base, j)),
    ensures
        exists|m: nat| is_first_free(names, base, m),
    decreases names.len() + 1 - k,
{
    lemma_candidates_bounded(names, base, k);
    if name_used(names, candidate(base, k)) {
        assert forall|j: nat| j < k + 1 implies name_used(names, #[trigger] candidate(base, j)) by {
            if j == k {
            }
        }
        lemma_candidates_bounded(names, base, k + 1);
        lemma_free_from(names, base, k + 1);
    } else {
        assert(is_first_free(names, base, k));
    }
}

/// The first free candidate is the only one.
pub proof fn lemma_first_free_unique(names: Seq<Seq<char>>, base: Seq<char>, k: nat)
    requires
        is_first_free(names, base, k),
    ensures
        first_free(names, base) == k,
{
    let m = first_free(names, base);
    if m < k {
        assert(name_used(names, candidate(base, m)));
    } else if k < m {
        assert(name_used(names, candidate(base, k)));
    }
}

/// The names of an assignment.
pub open spec fn assigned_names(assign: Seq<(Mark, Seq<char>)>) -> Seq<Seq<char>> {
    Seq::new(assign.len(), |i: int| assign[i].1)
}

/// Whether the class of `root` has a name.
pub open spec fn has_root(assign: Seq<(Mark, Seq<char>)>, root: Mark) -> bool {
    exists|i: int| 0 <= i < assign.len() && (#[trigger] assign[i]).0 == root
}

/// The name of the class of `root`, where it has one.
pub open spec fn name_of_root(assign: Seq<(Mark, Seq<char>)>, root: Mark) -> Option<Seq<char>> {
    if has_root(assign, root) {
        Some(assign[choose|i: int| 0 <= i < assign.len() && (#[trigger] assign[i]).0 == root].1)
    } else {
        None
    }
}

/// The assignment after one more declared name: a class that has a name
/// keeps it, another gets the first free candidate for the declared name.
pub open spec fn assign_one(
    symbol_box: &SymbolBox,
    assign: Seq<(Mark, Seq<char>)>,
    symbol: (Seq<char>, Mark),
) -> Seq<(Mark, Seq<char>)> {
    let root = symbol_box.root(symbol.1);
    if has_root(assign, root) {
        assign
    } else {
        assign.push((root, candidate(symbol.0, first_free(assigned_names(assign), symbol.0))))
    }
}

/// The assignment after the first `n` declared names, in order.
pub open spec fn assign_all(symbol_box: &SymbolBox, symbols: Seq<(Seq<char>, Mark)>, n: int) -> Seq<
    (Mark, Seq<char>),
>
    decreases n,
{
    if 0 < n <= symbols.len() {
        assign_one(symbol_box, assign_all(symbol_box, symbols, n - 1), symbols[n - 1])
    } else {
        Seq::empty()
    }
}

/// No class has two names and no name stands for two classes.
pub open spec fn is_unique(assign: Seq<(Mark, Seq<char>)>) -> bool {
    forall|i: int, j: int|
        0 <= i < j < assign.len() ==> (#[trigger] assign[i]).0 != (#[trigger] assign[j]).0
            && assign[i].1 != assign[j].1
}

/// One more declared name keeps the assignment unique.
pub proof fn lemma_assign_one_unique(
    symbol_box: &SymbolBox,
    assign: Seq<(Mark, Seq<char>)>,
    symbol: (Seq<char>, Mark),
)
    requires
        is_unique(assign),
    ensures
        is_unique(assign_one(symbol_box, assign, symbol)),
{
    let root = symbol_box.root(symbol.1);
    if !has_root(assign, root) {
        let names = assigned_names(assign);
        lemma_first_free(names, symbol.0);
        let name = candidate(symbol.0, first_free(names, symbol.0));
        let after = assign.push((root, name));
        assert forall|i: int, j: int| 0 <= i < j < after.len() implies (#[trigger] after[i]).0 != (
        #[trigger] after[j]).0 && after[i].1 != after[j].1 by {
            if j == assign.len() {
                assert(assign[i].0 != root);
                if assign[i].1 == name {
                    assert(names[i] == name);
                    assert(name_used(names, name));
                }
            }
        }
    }
}

/// Distinct classes get distinct names: the assignment made from any
/// declared names is unique.
pub proof fn lemma_assign_all_unique(symbol_box: &SymbolBox, symbols: Seq<(Seq<char>, Mark)>, n: int)
    ensures
        is_unique(assign_all(symbol_box, symbols, n)),
    decreases n,
{
    if 0 < n <= symbols.len() {
        lemma_assign_all_unique(symbol_box, symbols, n - 1);
        lemma_assign_one_unique(
            symbol_box,
            assign_all(symbol_box, symbols, n - 1),
            symbols[n - 1],
        );
    }
}

/// The declared names with each replaced by the name that its class was given.
pub open spec fn renamed_symbols(
    symbol_box: &SymbolBox,
    symbols: Seq<(Seq<char>, Mark)>,
    assign: Seq<(Mark, Seq<char>)>,
) -> Seq<(Seq<char>, Mark)> {
    Seq::new(
        symbols.len(),
        |i: int|
            (
                match name_of_root(assign, symbol_box.root(symbols[i].1)) {
                    Some(n) => n,
                    None => symbols[i].0,
                },
                symbols[i].1,
            ),
    )
}

/// An assignment only grows: what the first `n` declared names give stands
/// at the front of what `m` give.
pub proof fn lemma_assign_all_prefix(
    symbol_box: &SymbolBox,
    symbols: Seq<(Seq<char>, Mark)>,
    n: int,
    m: int,
)
    requires
        0 <= n <= m <= symbols.len(),
    ensures
        assign_all(symbol_box, symbols, n).len() <= assign_all(symbol_box, symbols, m).len(),
        assign_all(symbol_box, symbols, m).subrange(
            0,
            assign_all(symbol_box, symbols, n).len() as int,
        ) == assign_all(symbol_box, symbols, n),
    decreases m - n,
{
    let a = assign_all(symbol_box, symbols, n);
    if n == m {
        assert(a.subrange(0, a.len() as int) =~= a);
    } else {
        lemma_assign_all_prefix(symbol_box, symbols, n, m - 1);
        let b = assign_all(symbol_box, symbols, m - 1);
        let c = assign_all(symbol_box, symbols, m);
        assert(c.subrange(0, a.len() as int) =~= b.subrange(0, a.len() as int));
    }
}

/// In a unique assignment the name of a class is the name of its entry.
pub proof fn lemma_name_of_root(assign: Seq<(Mark, Seq<char>)>, i: int)
    requires
        is_unique(assign),
        0 <= i < assign.len(),
    ensures
        name_of_root(assign, assign[i].0) == Some(assign[i].1),
{
    let root = assign[i].0;
    let j = choose|j: int| 0 <= j < assign.len() && (#[trigger] assign[j]).0 == root;
    if i < j {
        assert(assign[i].0 != assign[j].0);
    } else if j < i {
        assert(assign[j].0 != assign[i].0);
    }
}

/// Deconflicting what was deconflicted changes nothing: from the declared
/// names, each replaced by the name its class was given, the same assignment is made.
pub proof fn lemma_deconflict_idempotent(symbol_box: &SymbolBox, symbols: Seq<(Seq<char>, Mark)>)
    ensures
        ({
            let assign = assign_all(symbol_box, symbols, symbols.len() as int);
            assign_all(
                symbol_box,
                renamed_symbols(symbol_box, symbols, assign),
                symbols.len() as int,
            ) == assign
        }),
{
    lemma_deconflict_idempotent_at(symbol_box, symbols, symbols.len() as int);
}

proof fn lemma_deconflict_idempotent_at(
    symbol_box: &SymbolBox,
    symbols: Seq<(Seq<char>, Mark)>,
    n: int,
)
    requires
        0 <= n <= symbols.len(),
    ensures
        ({
            let assign = assign_all(symbol_box, symbols, symbols.len() as int);
            assign_all(symbol_box, renamed_symbols(symbol_box, symbols, assign), n) == assign_all(
                symbol_box,
                symbols,
                n,
            )
        }),
    decreases n,
{
    let all = assign_all(symbol_box, symbols, symbols.len() as int);
    let renamed = renamed_symbols(symbol_box, symbols, all);
    if n > 0 {
        lemma_deconflict_idempotent_at(symbol_box, symbols, n - 1);
        let before = assign_all(symbol_box, symbols, n - 1);
        let symbol = symbols[n - 1];
        let root = symbol_box.root(symbol.1);
        assert(renamed[n - 1].1 == symbol.1);
        if !has_root(before, root) {
            let names = assigned_names(before);
            lemma_first_free(names, symbol.0);
            let name = candidate(symbol.0, first_free(names, symbol.0));
            let after = assign_all(symbol_box, symbols, n);
            assert(after == before.push((root, name)));
            lemma_assign_all_prefix(symbol_box, symbols, n, symbols.len() as int);
            lemma_assign_all_unique(symbol_box, symbols, symbols.len() as int);
            assert(all.subrange(0, after.len() as int)[before.len() as int] == all[before.len() as int]);
            assert(all[before.len() as int] == (root, name));
            lemma_name_of_root(all, before.len() as int);
            assert(renamed[n - 1].0 == name);
            assert(is_first_free(names, name, 0)) by {
                assert(candidate(name, 0) == name);
            }
            lemma_first_free_unique(names, name, 0);
        }
    }
}

fn digit_str(d: usize) -> (r: &'static str)
    requires
        d < 10,
    ensures
        r@ == seq![digit_char(d as nat)],
{
    proof {
        reveal_strlit("0");
        reveal_strlit("1");
        reveal_strlit("2");
        reveal_strlit("3");
        reveal_strlit("4");
        reveal_strlit("5");
        reveal_strlit("6");
        reveal_strlit("7");
        reveal_strlit("8");
        reveal_strlit("9");
    }
    let r = if d == 0 {
        "0"
    } else if d == 1 {
        "1"
    } else if d == 2 {
        "2"
    } else if d == 3 {
        "3"
    } else if d == 4 {
        "4"
    } else if d == 5 {
        "5"
    } else if d == 6 {
        "6"
    } else if d == 7 {
        "7"
    } else if d == 8 {
        "8"
    } else {
        "9"
    };
    assert(r@ =~= seq![digit_char(d as nat)]);
    r
}

/// Appends a number in decimal digits.
pub fn push_decimal(n: usize, out: &mut String)
    ensures
        final(out)@ == old(out)@ + decimal(n as nat),
    decreases n,
{
    if n >= 10 {
        push_decimal(n / 10, out);
    }
    out.append(digit_str(n % 10));
    proof {
        if n >= 10 {
            assert(out@ =~= old(out)@ + decimal(n as nat));
        }
    }
}

/// The `k`-th name tried for `base`.
pub fn make_candidate(base: &String, k: usize) -> (r: String)
    ensures
        r@ == candidate(base@, k as nat),
{
    let mut r = base.clone();
    if k > 0 {
        proof {
            reveal_strlit("$");
        }
        r.append("$");
        assert(r@ =~= base@ + seq!['$']);
        push_decimal(k - 1, &mut r);
    }
    r
}

/// The names of an assignment, as texts.
pub open spec fn assignment_view(assign: Seq<(Mark, String)>) -> Seq<(Mark, Seq<char>)> {
    Seq::new(assign.len(), |i: int| (assign[i].0, assign[i].1@))
}

/// The place of the class of `root` in the assignment.
pub fn find_root_name(assign: &Vec<(Mark, String)>, root: Mark) -> (r: Option<usize>)
    ensures
        match r {
            Some(i) => i < assign@.len() && assign@[i as int].0 == root,
            None => !has_root(assignment_view(assign@), root),
        },
        r is Some == has_root(assignment_view(assign@), root),
{
    let mut i: usize = 0;
    while i < assign.len()
        invariant
            i <= assign@.len(),
            forall|j: int| 0 <= j < i ==> assign@[j].0 != root,
        decreases assign@.len() - i,
    {
        if assign[i].0 == root {
            assert(assignment_view(assign@)[i as int].0 == root);
            return Some(i);
        }
        i += 1;
    }
    assert forall|j: int| 0 <= j < assignment_view(assign@).len() implies (
    #[trigger] assignment_view(assign@)[j]).0 != root by {
        assert(assign@[j].0 != root);
    }
    None
}

/// Whether a class has the name already.
pub fn is_name_used(assign: &Vec<(Mark, String)>, name: &String) -> (r: bool)
    ensures
        r == name_used(assigned_names(assignment_view(assign@)), name@),
{
    let ghost names = assigned_names(assignment_view(assign@));
    let mut i: usize = 0;
    while i < assign.len()
        invariant
            i <= assign@.len(),
            names == assigned_names(assignment_view(assign@)),
            forall|j: int| 0 <= j < i ==> names[j] != name@,
        decreases assign@.len() - i,
    {
        assert(names[i as int] == assign@[i as int].1@);
        if assign[i].1 == *name {
            return true;
        }
        i += 1;
    }
    false
}

/// Gives the class of `mark` a name made from `name`, unless it has one.
pub fn assign_name(
    symbol_box: &SymbolBox,
    assign: &mut Vec<(Mark, String)>,
    name: &String,
    mark: Mark,
)
    requires
        symbol_box.wf(),
    ensures
        assignment_view(final(assign)@) == assign_one(
            symbol_box,
            assignment_view(old(assign)@),
            (name@, mark),
        ),
{
    let root = symbol_box.find_root(mark);
    let ghost before = assignment_view(assign@);
    let ghost names = assigned_names(before);
    if find_root_name(assign, root).is_some() {
        return ;
    }
    let mut k: usize = 0;
    let mut cand = make_candidate(name, k);
    let count = assign.len();
    proof {
        lemma_candidates_bounded(names, name@, 0);
    }
    while is_name_used(assign, &cand)
        invariant
            count == assign@.len(),
            before == assignment_view(assign@),
            names == assigned_names(before),
            assign@ == old(assign)@,
            cand@ == candidate(name@, k as nat),
            k <= names.len(),
            names.len() == assign@.len(),
            forall|j: nat| j < k ==> name_used(names, #[trigger] candidate(name@, j)),
        decreases names.len() - k,
    {
        proof {
            assert forall|j: nat| j < k + 1 implies name_used(
                names,
                #[trigger] candidate(name@, j),
            ) by {
                if j == k {
                }
            }
            lemma_candidates_bounded(names, name@, (k + 1) as nat);
        }
        k += 1;
        cand = make_candidate(name, k);
    }
    proof {
        assert(is_first_free(names, name@, k as nat));
        lemma_first_free_unique(names, name@, k as nat);
    }
    assign.push((root, cand));
    assert(assignment_view(assign@) =~= before.push((root, cand@)));
}

/// The names of the classes of the declared names, in order: `base`, or the
/// first of `base$0`, `base$1`, .. that no class has.
pub fn assign_names(symbol_box: &SymbolBox, symbols: &Vec<(String, Mark)>) -> (assign: Vec<
    (Mark, String),
>)
    requires
        symbol_box.wf(),
    ensures
        assignment_view(assign@) == assign_all(
            symbol_box,
            symbols.deep_view(),
            symbols@.len() as int,
        ),
        is_unique(assignment_view(assign@)),
{
    let ghost all = symbols.deep_view();
    let mut assign: Vec<(Mark, String)> = Vec::new();
    assert(assignment_view(assign@) =~= Seq::empty());
    let mut i: usize = 0;
    while i < symbols.len()
        invariant
            i <= symbols@.len(),
            symbol_box.wf(),
            all == symbols.deep_view(),
            assignment_view(assign@) == assign_all(symbol_box, all, i as int),
        decreases symbols@.len() - i,
    {
        assert(all[i as int] == (symbols@[i as int].0@, symbols@[i as int].1));
        assign_name(symbol_box, &mut assign, &symbols[i].0, symbols[i].1);
        i += 1;
    }
    proof {
        lemma_assign_all_unique(symbol_box, all, symbols@.len() as int);
    }
    assign
}

} // verus!
