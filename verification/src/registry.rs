//! Declared decision variables and the variable registry.
//!
//! The registry fixes a deterministic, insertion-ordered assignment of
//! indices to declared variable names; an index is the solver-facing
//! handle, and linear-expression coefficients are stored in index order.

use vstd::prelude::*;

verus! {

/// Bound specification of one declared decision variable.
#[derive(Clone, Copy, Debug, PartialEq, Eq, Default)]
pub struct Variable {
    pub max: Option<i64>,
    pub min: Option<i64>,
}

/// Optimization objective: a goal (`"max"` or `"min"`) and an infix
/// expression string.
#[derive(Clone, Debug, PartialEq, Default)]
pub struct Objective {
    pub goal: String,
    pub expression: String,
}

/// Named constraint over one infix expression string holding exactly one
/// comparator.
#[derive(Clone, Debug, PartialEq, Default)]
pub struct Constraint {
    pub name: String,
    pub expression: String,
}

/// A declared problem: insertion-ordered variable declarations, the
/// objective, and the constraints.
#[derive(Clone, Debug, PartialEq, Default)]
pub struct UnoptimizedProblem {
    pub variables: Vec<(String, Variable)>,
    pub objective: Objective,
    pub constraints: Vec<Constraint>,
}

/// The bound forwarded to the solver backend for one variable.  When both
/// bounds are declared, only the lower one is forwarded: a deliberate,
/// documented and tested rule of this registry.
#[derive(Clone, Copy, Debug, PartialEq, Eq, Structural)]
pub enum VariableBound {
    Lower(i64),
    Upper(i64),
    Free,
}

/// The bound selection rule: a declared minimum wins, else a declared
/// maximum, else the variable is free.
pub open spec fn effective_bound(v: Variable) -> VariableBound {
    match v.min {
        Some(m) => VariableBound::Lower(m),
        None => match v.max {
            Some(m) => VariableBound::Upper(m),
            None => VariableBound::Free,
        },
    }
}

/// Registry of declared variables: names in declaration order (the index
/// of a name is its solver-facing handle) with their bound specifications.
#[derive(Clone, Debug)]
pub struct VariableRegistry {
    pub names: Vec<String>,
    pub bounds: Vec<Variable>,
}

/// First index of `nm` in `names`, or `-1` if absent.
pub open spec fn idx_of(names: Seq<Seq<char>>, nm: Seq<char>) -> int
    decreases names.len(),
{
    if names.len() == 0 {
        -1
    } else if names[0] == nm {
        0
    } else {
        let r = idx_of(names.drop_first(), nm);
        if r < 0 {
            -1
        } else {
            r + 1
        }
    }
}

/// `idx_of` finds the first occurrence, and `-1` means absence.
pub proof fn lemma_idx_of(names: Seq<Seq<char>>, nm: Seq<char>)
    ensures
        idx_of(names, nm) >= 0 ==> 0 <= idx_of(names, nm) < names.len() && names[idx_of(names, nm)]
            == nm,
        idx_of(names, nm) < 0 ==> forall|k: int| 0 <= k < names.len() ==> names[k] != nm,
    decreases names.len(),
{
    if names.len() > 0 && names[0] != nm {
        lemma_idx_of(names.drop_first(), nm);
        if idx_of(names.drop_first(), nm) < 0 {
            assert forall|k: int| 0 <= k < names.len() implies names[k] != nm by {
                if k > 0 {
                    assert(names.drop_first()[k - 1] == names[k]);
                }
            }
        } else {
            assert(names.drop_first()[idx_of(names.drop_first(), nm)] == names[idx_of(names, nm)]);
        }
    }
}

proof fn lemma_idx_of_first(names: Seq<Seq<char>>, nm: Seq<char>, j: int)
    requires
        0 <= j < names.len(),
        names[j] == nm,
        forall|k: int| 0 <= k < j ==> names[k] != nm,
    ensures
        idx_of(names, nm) == j,
    decreases j,
{
    if j == 0 {
    } else {
        assert(names[0] != nm);
        let t = names.drop_first();
        assert(t[j - 1] == names[j]);
        assert forall|k: int| 0 <= k < j - 1 implies t[k] != nm by {
            assert(t[k] == names[k + 1]);
        }
        lemma_idx_of_first(t, nm, j - 1);
    }
}

proof fn lemma_idx_of_none(names: Seq<Seq<char>>, nm: Seq<char>)
    requires
        forall|k: int| 0 <= k < names.len() ==> names[k] != nm,
    ensures
        idx_of(names, nm) == -1,
    decreases names.len(),
{
    if names.len() > 0 {
        let t = names.drop_first();
        assert forall|k: int| 0 <= k < t.len() implies t[k] != nm by {
            assert(t[k] == names[k + 1]);
        }
        lemma_idx_of_none(t, nm);
    }
}

impl VariableRegistry {
    /// As many bounds as names.
    pub open spec fn wf(&self) -> bool {
        self.names@.len() == self.bounds@.len()
    }

    /// The declared names, in declaration order.
    pub open spec fn names_model(&self) -> Seq<Seq<char>> {
        self.names@.map(|i: int, s: String| s@)
    }

    /// Number of declared variables.
    pub fn len(&self) -> (n: usize)
        ensures
            n == self.names@.len(),
    {
        self.names.len()
    }

    /// The index (solver-facing handle) of a declared name: the first
    /// declaration with that name, or `None` if the name is not declared.
    pub fn lookup(&self, name: &String) -> (r: Option<usize>)
        ensures
            r matches Some(j) ==> idx_of(self.names_model(), name@) == j && j < self.names@.len(),
            r is None ==> idx_of(self.names_model(), name@) == -1,
    {
        let n = self.names.len();
        let mut i: usize = 0;
        while i < n
            invariant
                i <= n,
                n == self.names@.len(),
                forall|k: int| 0 <= k < i ==> self.names_model()[k] != name@,
            decreases n - i,
        {
            if self.names[i] == *name {
                proof {
                    assert(self.names_model()[i as int] == name@);
                    lemma_idx_of_first(self.names_model(), name@, i as int);
                }
                return Some(i);
            }
            proof {
                assert(self.names_model()[i as int] == self.names@[i as int]@);
            }
            i = i + 1;
        }
        proof {
            lemma_idx_of_none(self.names_model(), name@);
        }
        None
    }

    /// The declared name of a handle.
    pub fn name_of(&self, i: usize) -> (r: &String)
        requires
            i < self.names@.len(),
        ensures
            r@ == self.names_model()[i as int],
    {
        &self.names[i]
    }

    /// The bound forwarded to the backend for handle `i`, per the bound
    /// selection rule.
    pub fn forwarded_bound(&self, i: usize) -> (b: VariableBound)
        requires
            self.wf(),
            i < self.names@.len(),
        ensures
            b == effective_bound(self.bounds@[i as int]),
    {
        let v = self.bounds[i];
        match v.min {
            Some(m) => VariableBound::Lower(m),
            None => match v.max {
                Some(m) => VariableBound::Upper(m),
                None => VariableBound::Free,
            },
        }
    }
}

/// Builds the registry from the declarations, keeping declaration order:
/// the handle of a declaration is its position.
pub fn create_variables(declarations: Vec<(String, Variable)>) -> (r: VariableRegistry)
    ensures
        r.wf(),
        r.names@.len() == declarations@.len(),
        forall|k: int|
            0 <= k < declarations@.len() ==> r.names@[k] == (#[trigger] declarations@[k]).0
                && r.bounds@[k] == declarations@[k].1,
{
    let mut names: Vec<String> = Vec::new();
    let mut bounds: Vec<Variable> = Vec::new();
    let n = declarations.len();
    let mut i: usize = 0;
    while i < n
        invariant
            i <= n,
            n == declarations@.len(),
            names@.len() == i,
            bounds@.len() == i,
            forall|k: int|
                0 <= k < i ==> names@[k] == (#[trigger] declarations@[k]).0 && bounds@[k]
                    == declarations@[k].1,
        decreases n - i,
    {
        let name = declarations[i].0.clone();
        let bound = declarations[i].1;
        names.push(name);
        bounds.push(bound);
        i = i + 1;
    }
    VariableRegistry { names, bounds }
}

} // verus!
