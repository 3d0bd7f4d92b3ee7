use crate::errors::InterpreterError;
use std::collections::HashMap;
use vstd::prelude::*;

verus! {

/// Opening brackets minus closing brackets among the first `n` characters of `s`.
pub open spec fn depth(s: Seq<char>, n: int) -> int
    decreases n,
{
    if n <= 0 {
        0
    } else {
        depth(s, n - 1) + if s[n - 1] == '[' {
            1int
        } else if s[n - 1] == ']' {
            -1int
        } else {
            0int
        }
    }
}

/// Number of closing brackets among the first `n` characters of `s`.
pub open spec fn closing_count(s: Seq<char>, n: int) -> nat
    decreases n,
{
    if n <= 0 {
        0
    } else {
        closing_count(s, n - 1) + if s[n - 1] == ']' {
            1nat
        } else {
            0nat
        }
    }
}

/// Every prefix holds at least as many `[` as `]`, and the whole source as many of each.
pub open spec fn balanced(s: Seq<char>) -> bool {
    &&& forall|n: int| 0 <= n <= s.len() ==> #[trigger] depth(s, n) >= 0
    &&& depth(s, s.len() as int) == 0
}

/// The `[` at `k` is the partner of the `]` at `j`: the nesting depth never falls back
/// to the level of `k` between them.
pub open spec fn matched(s: Seq<char>, k: int, j: int) -> bool {
    &&& 0 <= k < j < s.len()
    &&& s[k] == '['
    &&& s[j] == ']'
    &&& depth(s, j) == depth(s, k) + 1
    &&& forall|m: int| k < m <= j ==> #[trigger] depth(s, m) > depth(s, k)
}

/// The left-to-right scan over the first `n` characters: the stack of still open
/// brackets and the table from each closing position to its opening position, or the
/// first closing bracket found with an empty stack.
pub open spec fn scan(s: Seq<char>, n: nat) -> Result<
    (Seq<usize>, Map<usize, usize>),
    InterpreterError,
>
    decreases n,
{
    if n == 0 {
        Ok((Seq::empty(), Map::empty()))
    } else {
        match scan(s, (n - 1) as nat) {
            Err(e) => Err(e),
            Ok((stack, table)) => {
                let i = n - 1;
                if s[i] == '[' {
                    Ok((stack.push(i as usize), table))
                } else if s[i] == ']' {
                    if stack.len() == 0 {
                        Err(InterpreterError::NoMatchingOpenLoop(i as usize))
                    } else {
                        Ok((stack.drop_last(), table.insert(i as usize, stack.last())))
                    }
                } else {
                    Ok((stack, table))
                }
            },
        }
    }
}

/// The jump table of a whole source, or the bracket that has no partner. A dangling
/// `[` is reported at the innermost one, the last pushed and never popped.
pub open spec fn resolve(s: Seq<char>) -> Result<Map<usize, usize>, InterpreterError> {
    match scan(s, s.len()) {
        Err(e) => Err(e),
        Ok((stack, table)) => if stack.len() > 0 {
            Err(InterpreterError::NoMatchingCloseLoop(stack.last()))
        } else {
            Ok(table)
        },
    }
}

/// What the scan has established after `n` characters.
proof fn lemma_scan(s: Seq<char>, n: nat)
    requires
        n <= s.len() <= usize::MAX,
    ensures
        match scan(s, n) {
            Ok((stack, table)) => {
                &&& stack.len() == depth(s, n as int)
                &&& forall|m: int| 0 <= m <= n ==> #[trigger] depth(s, m) >= 0
                &&& forall|i: int|
                    0 <= i < stack.len() ==> {
                        &&& #[trigger] stack[i] < n
                        &&& s[stack[i] as int] == '['
                        &&& depth(s, stack[i] as int) == i
                        &&& forall|m: int| stack[i] < m <= n ==> #[trigger] depth(s, m) > i
                    }
                &&& forall|k: usize| #[trigger]
                    table.contains_key(k) <==> (k < n && s[k as int] == ']')
                &&& forall|k: usize| #[trigger]
                    table.contains_key(k) ==> matched(s, table[k] as int, k as int)
                &&& table.dom().finite()
                &&& table.len() == closing_count(s, n as int)
            },
            Err(e) => {
                &&& e is NoMatchingOpenLoop
                &&& e->NoMatchingOpenLoop_0 < n
                &&& s[e->NoMatchingOpenLoop_0 as int] == ']'
                &&& depth(s, e->NoMatchingOpenLoop_0 as int) == 0
                &&& forall|m: int|
                    0 <= m <= e->NoMatchingOpenLoop_0 ==> #[trigger] depth(s, m) >= 0
            },
        },
    decreases n,
{
    if n > 0 {
        let p = (n - 1) as nat;
        lemma_scan(s, p);
        assert(depth(s, n as int) == depth(s, p as int) + if s[p as int] == '[' {
            1int
        } else if s[p as int] == ']' {
            -1int
        } else {
            0int
        });
        match scan(s, p) {
            Err(e) => {},
            Ok((stack, table)) => {
                if s[p as int] == '[' {
                    let st = stack.push(p as usize);
                    assert forall|i: int| 0 <= i < st.len() implies {
                        &&& #[trigger] st[i] < n
                        &&& s[st[i] as int] == '['
                        &&& depth(s, st[i] as int) == i
                        &&& forall|m: int| st[i] < m <= n ==> #[trigger] depth(s, m) > i
                    } by {
                        if i < stack.len() {
                            assert(st[i] == stack[i]);
                        }
                    }
                } else if s[p as int] == ']' {
                    if stack.len() > 0 {
                        let top = stack.last();
                        let st = stack.drop_last();
                        let tb = table.insert(p as usize, top);
                        assert(stack[stack.len() - 1] == top);
                        assert(!table.contains_key(p as usize));
                        assert forall|i: int| 0 <= i < st.len() implies {
                            &&& #[trigger] st[i] < n
                            &&& s[st[i] as int] == '['
                            &&& depth(s, st[i] as int) == i
                            &&& forall|m: int| st[i] < m <= n ==> #[trigger] depth(s, m) > i
                        } by {
                            assert(st[i] == stack[i]);
                        }
                        assert(matched(s, top as int, p as int));
                        assert forall|k: usize| #[trigger]
                            tb.contains_key(k) implies matched(s, tb[k] as int, k as int) by {
                            if k != p as usize {
                                assert(table.contains_key(k));
                            }
                        }
                        assert(tb.len() == table.len() + 1);
                    }
                }
            },
        }
    }
}

/// A resolved table has an entry for each closing bracket, and no other, and each
/// entry leads to the bracket's partner.
pub proof fn lemma_resolved_table(s: Seq<char>)
    requires
        s.len() <= usize::MAX,
        resolve(s) is Ok,
    ensures
        forall|j: usize| #[trigger]
            resolve(s)->Ok_0.contains_key(j) <==> (j < s.len() && s[j as int] == ']'),
        forall|j: usize| #[trigger]
            resolve(s)->Ok_0.contains_key(j) ==> matched(s, resolve(s)->Ok_0[j] as int, j as int),
{
    lemma_scan(s, s.len());
}

/// A failed scan stays failed, with the same error, however far it goes on.
proof fn lemma_scan_error_stays(s: Seq<char>, a: nat, b: nat)
    requires
        a <= b,
        scan(s, a) is Err,
    ensures
        scan(s, b) == scan(s, a),
    decreases b - a,
{
    if a < b {
        lemma_scan_error_stays(s, a, (b - 1) as nat);
    }
}

/// Balanced, properly nested brackets always resolve: the table has one entry for each
/// closing bracket, and no other, and each entry leads to the bracket's partner.
pub proof fn lemma_balanced_resolves(s: Seq<char>)
    requires
        s.len() <= usize::MAX,
        balanced(s),
    ensures
        resolve(s) is Ok,
        resolve(s)->Ok_0.len() == closing_count(s, s.len() as int),
        forall|j: usize| #[trigger]
            resolve(s)->Ok_0.contains_key(j) <==> (j < s.len() && s[j as int] == ']'),
        forall|j: usize| #[trigger]
            resolve(s)->Ok_0.contains_key(j) ==> matched(s, resolve(s)->Ok_0[j] as int, j as int),
{
    lemma_scan(s, s.len());
    match scan(s, s.len()) {
        Err(e) => {
            let i = e->NoMatchingOpenLoop_0 as int;
            assert(depth(s, i + 1) == depth(s, i) - 1);
        },
        Ok(_) => {},
    }
}

/// A closing bracket at nesting depth zero makes resolution fail at the first such
/// bracket, scanning from the left.
pub proof fn lemma_unmatched_close(s: Seq<char>, j: int)
    requires
        s.len() <= usize::MAX,
        0 <= j < s.len(),
        s[j] == ']',
        depth(s, j) == 0,
    ensures
        resolve(s) is Err,
        resolve(s)->Err_0 is NoMatchingOpenLoop,
        resolve(s)->Err_0->NoMatchingOpenLoop_0 <= j,
        s[resolve(s)->Err_0->NoMatchingOpenLoop_0 as int] == ']',
        depth(s, resolve(s)->Err_0->NoMatchingOpenLoop_0 as int) == 0,
        forall|k: int|
            0 <= k < resolve(s)->Err_0->NoMatchingOpenLoop_0 ==> !(s[k] == ']' && #[trigger] depth(
                s,
                k,
            ) == 0),
{
    lemma_scan(s, (j + 1) as nat);
    assert(depth(s, j + 1) == depth(s, j) - 1);
    lemma_scan_error_stays(s, (j + 1) as nat, s.len());
    let i = scan(s, (j + 1) as nat)->Err_0->NoMatchingOpenLoop_0 as int;
    assert forall|k: int| 0 <= k < i implies !(s[k] == ']' && #[trigger] depth(s, k) == 0) by {
        assert(depth(s, k + 1) >= 0);
    }
}

/// A source with no stray closing bracket but with an opening one left open fails at the
/// innermost open bracket: the last one at the final depth less one.
pub proof fn lemma_dangling_open(s: Seq<char>)
    requires
        s.len() <= usize::MAX,
        forall|j: int| 0 <= j < s.len() && s[j] == ']' ==> #[trigger] depth(s, j) > 0,
        depth(s, s.len() as int) > 0,
    ensures
        resolve(s) is Err,
        resolve(s)->Err_0 is NoMatchingCloseLoop,
        resolve(s)->Err_0->NoMatchingCloseLoop_0 < s.len(),
        s[resolve(s)->Err_0->NoMatchingCloseLoop_0 as int] == '[',
        depth(s, resolve(s)->Err_0->NoMatchingCloseLoop_0 as int) == depth(s, s.len() as int) - 1,
        forall|m: int|
            resolve(s)->Err_0->NoMatchingCloseLoop_0 < m <= s.len() ==> #[trigger] depth(s, m)
                > depth(s, resolve(s)->Err_0->NoMatchingCloseLoop_0 as int),
{
    lemma_scan(s, s.len());
    match scan(s, s.len()) {
        Err(e) => {},
        Ok((stack, table)) => {
            assert(stack[stack.len() - 1] == stack.last());
        },
    }
}

/// Builds the jump table of `operands`: for each `]`, the position of its `[`.
pub fn map_loops(operands: &Vec<char>) -> (r: Result<HashMap<usize, usize>, InterpreterError>)
    ensures
        match r {
            Ok(loops) => resolve(operands@) == Ok::<_, InterpreterError>(loops@),
            Err(e) => resolve(operands@) == Err::<Map<usize, usize>, _>(e),
        },
{
    let mut loops: HashMap<usize, usize> = HashMap::new();
    let mut stack: Vec<usize> = Vec::new();
    let mut i: usize = 0;
    while i < operands.len()
        invariant
            i <= operands.len(),
            scan(operands@, i as nat) == Ok::<_, InterpreterError>((stack@, loops@)),
        decreases operands.len() - i,
    {
        let ch = operands[i];
        if ch == '[' {
            stack.push(i);
        } else if ch == ']' {
            match stack.pop() {
                Some(start) => {
                    loops.insert(i, start);
                },
                None => {
                    proof {
                        lemma_scan_error_stays(operands@, (i + 1) as nat, operands@.len());
                    }
                    return Err(InterpreterError::NoMatchingOpenLoop(i));
                },
            }
        }
        i = i + 1;
    }
    match stack.pop() {
        Some(open) => Err(InterpreterError::NoMatchingCloseLoop(open)),
        None => Ok(loops),
    }
}

} // verus!
