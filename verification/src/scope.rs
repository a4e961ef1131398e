//! Line-range scopes and the attribution of a line to the smallest scope
//! that holds it.

use vstd::prelude::*;

verus! {

/// The lines of a definition, under the definition's fingerprint.
#[derive(Debug, Clone, Copy, PartialEq, Eq, Structural)]
pub struct Scope {
    pub id: u64,
    pub start_line: i32,
    pub end_line: i32,
}

impl Scope {
    /// Whether `line` lies in the scope, ends included.
    pub open spec fn encloses(self, line: i32) -> bool {
        self.start_line <= line <= self.end_line
    }

    /// The scope's last line less its first.
    pub open spec fn span(self) -> int {
        self.end_line - self.start_line
    }
}

/// The index, among the first `n` scopes, of the one that `line` is
/// attributed to, or `-1` where none of them holds the line.
pub open spec fn best_scope(scopes: Seq<Scope>, line: i32, n: nat) -> int
    decreases n,
{
    if n == 0 {
        -1
    } else {
        let b = best_scope(scopes, line, (n - 1) as nat);
        let s = scopes[n - 1];
        if s.encloses(line) && (b < 0 || s.span() < scopes[b].span()) {
            n - 1
        } else {
            b
        }
    }
}

/// The fingerprint of the scope that `line` is attributed to.
pub open spec fn enclosing_scope(scopes: Seq<Scope>, line: i32) -> Option<u64> {
    let b = best_scope(scopes, line, scopes.len());
    if b < 0 {
        None
    } else {
        Some(scopes[b].id)
    }
}

/// The scope chosen holds the line, no scope that holds the line has a
/// smaller span, and every earlier scope that holds the line has a larger
/// one. Where no scope holds the line, none is chosen.
pub proof fn lemma_best_scope(scopes: Seq<Scope>, line: i32, n: nat)
    requires
        n <= scopes.len(),
    ensures
        -1 <= best_scope(scopes, line, n) < n,
        best_scope(scopes, line, n) < 0 ==> forall|j: int|
            0 <= j < n ==> !(#[trigger] scopes[j]).encloses(line),
        best_scope(scopes, line, n) >= 0 ==> {
            let b = best_scope(scopes, line, n);
            &&& scopes[b].encloses(line)
            &&& forall|j: int|
                0 <= j < n && (#[trigger] scopes[j]).encloses(line) ==> scopes[b].span()
                    <= scopes[j].span()
            &&& forall|j: int|
                0 <= j < b && (#[trigger] scopes[j]).encloses(line) ==> scopes[b].span()
                    < scopes[j].span()
        },
    decreases n,
{
    if n > 0 {
        lemma_best_scope(scopes, line, (n - 1) as nat);
    }
}

/// The fingerprint of the smallest scope that holds `line`, the first of
/// them where several are as small; none where no scope holds the line.
pub fn find_enclosing_scope(scopes: &Vec<Scope>, line: i32) -> (r: Option<u64>)
    ensures
        r == enclosing_scope(scopes@, line),
{
    let mut best: Option<usize> = None;
    let mut i: usize = 0;
    while i < scopes.len()
        invariant
            i <= scopes.len(),
            match best {
                Some(b) => b < i && b == best_scope(scopes@, line, i as nat),
                None => best_scope(scopes@, line, i as nat) == -1,
            },
        decreases scopes.len() - i,
    {
        let s = scopes[i];
        if line >= s.start_line && line <= s.end_line {
            let size: i64 = s.end_line as i64 - s.start_line as i64;
            let better = match best {
                Some(b) => size < scopes[b].end_line as i64 - scopes[b].start_line as i64,
                None => true,
            };
            if better {
                best = Some(i);
            }
        }
        i += 1;
    }
    match best {
        Some(b) => Some(scopes[b].id),
        None => None,
    }
}

} // verus!
