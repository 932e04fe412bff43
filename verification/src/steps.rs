//! The declared steps of an orchestration, and how names resolve to steps.

use vstd::prelude::*;

verus! {

/// One unit of work: a workflow of one remote repository.
#[derive(Debug, Clone, PartialEq, Eq)]
pub struct OrchestrationStep {
    pub name: String,
    pub description: Option<String>,
    pub owner: String,
    pub repo: String,
    pub workflow_id: String,
    pub args: Option<Vec<String>>,
    pub depends_on: Option<Vec<String>>,
}

/// A named list of steps, in the order in which they were declared.
#[derive(Debug, Clone, PartialEq, Eq)]
pub struct OrchestrationYml {
    pub name: String,
    pub description: String,
    pub steps: Vec<OrchestrationStep>,
}

impl OrchestrationStep {
    /// The names this step depends on, in the order in which it lists them.
    pub open spec fn dependencies(&self) -> Seq<Seq<char>> {
        match self.depends_on {
            Some(names) => Seq::new(names@.len(), |k: int| names@[k]@),
            None => Seq::empty(),
        }
    }

    /// A step without description, arguments and dependencies.
    pub fn new(name: String, owner: String, repo: String, workflow_id: String) -> (step: Self)
        ensures
            step.name == name,
            step.owner == owner,
            step.repo == repo,
            step.workflow_id == workflow_id,
            step.description is None,
            step.args is None,
            step.depends_on is None,
    {
        OrchestrationStep {
            name,
            description: None,
            owner,
            repo,
            workflow_id,
            args: None,
            depends_on: None,
        }
    }

    /// The same step, depending on the steps named.
    pub fn after(self, names: Vec<String>) -> (step: Self)
        ensures
            step.depends_on == Some(names),
            step.name == self.name,
            step.description == self.description,
            step.owner == self.owner,
            step.repo == self.repo,
            step.workflow_id == self.workflow_id,
            step.args == self.args,
    {
        let mut step = self;
        step.depends_on = Some(names);
        step
    }

    /// How many names this step depends on.
    pub fn dependency_count(&self) -> (count: usize)
        ensures
            count == self.dependencies().len(),
    {
        match &self.depends_on {
            Some(names) => names.len(),
            None => 0,
        }
    }
}

/// Whether step `i` is the first step that carries `name`.
pub open spec fn is_first_match(steps: Seq<OrchestrationStep>, name: Seq<char>, i: int) -> bool {
    &&& 0 <= i < steps.len()
    &&& steps[i].name@ == name
    &&& forall|j: int| 0 <= j < i ==> (#[trigger] steps[j]).name@ != name
}

/// Whether some step carries `name`.
pub open spec fn resolves(steps: Seq<OrchestrationStep>, name: Seq<char>) -> bool {
    exists|i: int| 0 <= i < steps.len() && (#[trigger] steps[i]).name@ == name
}

/// The index of the first step that carries `name`. It means something only
/// where `name` resolves.
pub open spec fn step_index(steps: Seq<OrchestrationStep>, name: Seq<char>) -> int {
    choose|i: int| is_first_match(steps, name, i)
}

/// Whether an earlier step carries the name of step `j`.
pub open spec fn repeats_earlier_name(steps: Seq<OrchestrationStep>, j: int) -> bool {
    exists|i: int| 0 <= i < j && (#[trigger] steps[i]).name@ == steps[j].name@
}

/// Whether no two steps carry the same name.
pub open spec fn names_unique(steps: Seq<OrchestrationStep>) -> bool {
    forall|j: int| 0 <= j < steps.len() ==> !#[trigger] repeats_earlier_name(steps, j)
}

/// Whether every dependency of every step is the name of a step.
pub open spec fn dependencies_resolve(steps: Seq<OrchestrationStep>) -> bool {
    forall|i: int, k: int|
        0 <= i < steps.len() && 0 <= k < steps[i].dependencies().len() ==> resolves(
            steps,
            #[trigger] steps[i].dependencies()[k],
        )
}

/// Whether step `b` lists the name of step `a` among its dependencies.
pub open spec fn depends_directly(steps: Seq<OrchestrationStep>, b: int, a: int) -> bool {
    &&& 0 <= a < steps.len()
    &&& 0 <= b < steps.len()
    &&& steps[b].dependencies().contains(steps[a].name@)
}

/// Two first matches of one name are the same step.
pub proof fn lemma_first_match_unique(
    steps: Seq<OrchestrationStep>,
    name: Seq<char>,
    i: int,
    j: int,
)
    requires
        is_first_match(steps, name, i),
        is_first_match(steps, name, j),
    ensures
        i == j,
{
    if i < j {
        assert(steps[i].name@ == name);
    } else if j < i {
        assert(steps[j].name@ == name);
    }
}

/// A name that resolves has a first match, and `step_index` is it.
pub proof fn lemma_step_index(steps: Seq<OrchestrationStep>, name: Seq<char>)
    requires
        resolves(steps, name),
    ensures
        is_first_match(steps, name, step_index(steps, name)),
{
    let some = choose|i: int| 0 <= i < steps.len() && (#[trigger] steps[i]).name@ == name;
    lemma_has_first_match(steps, name, some);
}

proof fn lemma_has_first_match(steps: Seq<OrchestrationStep>, name: Seq<char>, upto: int)
    requires
        0 <= upto < steps.len(),
        steps[upto].name@ == name,
    ensures
        exists|i: int| is_first_match(steps, name, i),
    decreases upto,
{
    if exists|j: int| 0 <= j < upto && (#[trigger] steps[j]).name@ == name {
        let j = choose|j: int| 0 <= j < upto && (#[trigger] steps[j]).name@ == name;
        lemma_has_first_match(steps, name, j);
    } else {
        assert(is_first_match(steps, name, upto));
    }
}

/// Where names are unique, each step is the one that its own name resolves to.
pub proof fn lemma_own_index(steps: Seq<OrchestrationStep>, a: int)
    requires
        names_unique(steps),
        0 <= a < steps.len(),
    ensures
        step_index(steps, steps[a].name@) == a,
{
    let name = steps[a].name@;
    assert(resolves(steps, name));
    lemma_step_index(steps, name);
    let i = step_index(steps, name);
    if i < a {
        assert(repeats_earlier_name(steps, a));
    } else if a < i {
        assert(steps[a].name@ == name);
    }
}

/// The first step that carries `name`, if one does.
pub fn find_step(steps: &Vec<OrchestrationStep>, name: &String) -> (found: Option<usize>)
    ensures
        found matches Some(i) ==> is_first_match(steps@, name@, i as int),
        found is None ==> !resolves(steps@, name@),
{
    let mut i: usize = 0;
    while i < steps.len()
        invariant
            i <= steps.len(),
            forall|j: int| 0 <= j < i ==> (#[trigger] steps@[j]).name@ != name@,
        decreases steps.len() - i,
    {
        if steps[i].name == *name {
            assert(steps@[i as int].name@ == name@);
            return Some(i);
        }
        i += 1;
    }
    None
}

} // verus!
