//! The agent loop's parts: a planner, an executor, a validator and a
//! reporter.
use vstd::prelude::*;
use std::convert::Infallible;
use vstd::string::StringExecFns;
use crate::text::{
    join, join_strings, lacks, lemma_lines_of_join, lemma_split_of_join, lines, split_on,
    string_views,
};

verus! {

/// Carries out the steps of a plan.
#[derive(Debug, Clone, Copy)]
pub struct Executor;

impl Executor {
    /// Runs the step titled `step_title` (a mock run) and reports it.
    pub fn execute_step(&self, step_title: &str) -> (r: Result<String, Infallible>)
        ensures
            r matches Ok(s) && s@ == "execução mock: "@ + step_title@,
    {
        let mut s = String::from_str("execução mock: ");
        s.append(step_title);
        Ok(s)
    }
}

/// One step of a plan.
#[derive(Debug, Clone)]
pub struct PlanStep {
    pub id: usize,
    pub title: String,
    pub status: String,
}

/// A goal and the steps towards it.
#[derive(Debug, Clone)]
pub struct Plan {
    pub goal: String,
    pub steps: Vec<PlanStep>,
}

/// Turns a goal into a plan.
#[derive(Debug, Clone, Copy)]
pub struct Planner;

impl Default for Planner {
    fn default() -> (p: Planner) {
        Planner
    }
}

/// The titles of the steps of every plan.
pub open spec fn plan_titles() -> Seq<Seq<char>> {
    seq!["Entender tarefa"@, "Propor alteração em diff"@, "Validar e reportar"@]
}

fn pending_step(id: usize, title: &str) -> (s: PlanStep)
    ensures
        s.id == id,
        s.title@ == title@,
        s.status@ == "pending"@,
{
    PlanStep { id, title: String::from_str(title), status: String::from_str("pending") }
}

impl Planner {
    /// The plan for `goal`: understand the task, propose a diff, validate and
    /// report, numbered from 1 and all pending.
    pub fn create_plan(&self, goal: &str) -> (p: Plan)
        ensures
            p.goal@ == goal@,
            p.steps.len() == 3,
            forall|i: int|
                0 <= i < 3 ==> {
                    &&& (#[trigger] p.steps@[i]).id == i + 1
                    &&& p.steps@[i].title@ == plan_titles()[i]
                    &&& p.steps@[i].status@ == "pending"@
                },
    {
        let mut steps: Vec<PlanStep> = Vec::new();
        steps.push(pending_step(1, "Entender tarefa"));
        steps.push(pending_step(2, "Propor alteração em diff"));
        steps.push(pending_step(3, "Validar e reportar"));
        Plan { goal: String::from_str(goal), steps }
    }
}

/// Sums up what was done.
#[derive(Debug, Clone, Copy)]
pub struct Reporter;

impl Reporter {
    /// The items, one per line.
    pub fn summarize(items: &[String]) -> (r: String)
        ensures
            r@ == join(string_views(items@), "\n"@),
    {
        join_strings(items, "\n")
    }
}

/// Checks the outcome of a plan.
#[derive(Debug, Clone, Copy)]
pub struct Validator;

impl Validator {
    /// Runs the checks (none yet) and reports them.
    pub fn run(&self) -> (r: Result<Vec<String>, Infallible>)
        ensures
            r matches Ok(v) && v@.len() == 1 && v@[0]@ == "validator mock: sem checks neste milestone"@,
    {
        let mut v: Vec<String> = Vec::new();
        v.push(String::from_str("validator mock: sem checks neste milestone"));
        Ok(v)
    }
}

/// A summary splits back into its items, one per line, where no item is
/// empty, holds a line feed, or ends with a carriage return.
pub proof fn lemma_summary_lines(items: Seq<Seq<char>>)
    requires
        forall|i: int|
            0 <= i < items.len() ==> (#[trigger] items[i]).len() > 0 && lacks(items[i], '\n')
                && items[i].last() != '\r',
    ensures
        lines(join(items, "\n"@)) == items,
{
    lemma_lines_of_join(items);
}

/// A summary of at least one item, none holding a line feed, splits on
/// line feeds back into its items, in order.
pub proof fn lemma_summary_splits_back(items: Seq<Seq<char>>)
    requires
        items.len() >= 1,
        forall|i: int| 0 <= i < items.len() ==> lacks(#[trigger] items[i], '\n'),
    ensures
        split_on(join(items, "\n"@), '\n') == items,
{
    lemma_split_of_join(items);
}

} // verus!
