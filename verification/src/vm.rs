use vstd::prelude::*;

use crate::data::{il_datas_view, ils_view, lemma_il_data_view, Il, IlData, SpecIl, SpecIlData};

verus! {

/// The state of the machine: its data stack, and a stack of definitions.
#[derive(Debug)]
pub struct ExeEnv {
    pub data_stack: Vec<IlData>,
    pub def_stack: Vec<IlData>,
}

/// One instruction on a data stack: the new stack and the value printed, if any; `None`
/// where the machine cannot run it (`Print` or `TupleCons(n)` with too few values, `Match`,
/// `Def`).
pub open spec fn spec_step(stack: Seq<SpecIlData>, instr: SpecIl) -> Option<
    (Seq<SpecIlData>, Option<SpecIlData>),
> {
    match instr {
        SpecIl::Push(d) => Some((stack.push(d), None)),
        SpecIl::TupleCons(n) => if n <= stack.len() {
            Some(
                (
                    stack.take(stack.len() - n).push(SpecIlData::Tuple(stack.skip(stack.len() - n))),
                    None,
                ),
            )
        } else {
            None
        },
        SpecIl::Print => if stack.len() > 0 {
            Some((stack.drop_last(), Some(stack.last())))
        } else {
            None
        },
        SpecIl::Match => None,
        SpecIl::Def => None,
    }
}

/// The values printed: none or one.
pub open spec fn printed(out: Option<SpecIlData>) -> Seq<SpecIlData> {
    match out {
        Some(d) => seq![d],
        None => Seq::empty(),
    }
}

/// A program run from a data stack: the final stack and the values printed, in order;
/// `None` where some instruction cannot run.
pub open spec fn spec_run(stack: Seq<SpecIlData>, prog: Seq<SpecIl>) -> Option<
    (Seq<SpecIlData>, Seq<SpecIlData>),
>
    decreases prog.len(),
{
    if prog.len() == 0 {
        Some((stack, Seq::empty()))
    } else {
        match spec_step(stack, prog[0]) {
            Some((next, out)) => match spec_run(next, prog.subrange(1, prog.len() as int)) {
                Some((fin, outs)) => Some((fin, printed(out) + outs)),
                None => None,
            },
            None => None,
        }
    }
}

impl ExeEnv {
    /// A machine with empty stacks.
    pub fn new() -> (r: Self)
        ensures
            r.data_stack@.len() == 0,
            r.def_stack@.len() == 0,
    {
        ExeEnv { data_stack: Vec::new(), def_stack: Vec::new() }
    }
}

/// Whether the machine can run `instr` from `env`.
pub fn can_step(env: &ExeEnv, instr: &Il) -> (r: bool)
    ensures
        r == spec_step(il_datas_view(env.data_stack@), instr@) is Some,
{
    match instr {
        Il::Push(_) => true,
        Il::TupleCons(count) => *count <= env.data_stack.len(),
        Il::Print => env.data_stack.len() > 0,
        Il::Match => false,
        Il::Def => false,
    }
}

/// Runs one instruction: pushes a value; replaces the top `count` values by a tuple of them
/// (the deepest first); or pops the top value and returns it to be printed.
pub fn step(env: &mut ExeEnv, instr: Il) -> (r: Option<IlData>)
    requires
        spec_step(il_datas_view(old(env).data_stack@), instr@) is Some,
    ensures
        spec_step(il_datas_view(old(env).data_stack@), instr@) == Some(
            (
                il_datas_view(final(env).data_stack@),
                match r {
                    Some(d) => Some(d@),
                    None => None,
                },
            ),
        ),
        final(env).def_stack@ == old(env).def_stack@,
{
    let ghost before = il_datas_view(env.data_stack@);
    match instr {
        Il::Print => {
            let data = env.data_stack.pop();
            proof {
                assert(il_datas_view(env.data_stack@) =~= before.drop_last());
            }
            data
        },
        Il::Push(data) => {
            env.data_stack.push(data);
            proof {
                assert(il_datas_view(env.data_stack@) =~= before.push(data@));
            }
            None
        },
        Il::TupleCons(count) => {
            let params = env.data_stack.split_off(env.data_stack.len() - count);
            let tuple = IlData::Tuple(params);
            proof {
                lemma_il_data_view(tuple);
                assert(il_datas_view(params@) =~= before.skip(before.len() - count));
            }
            env.data_stack.push(tuple);
            proof {
                assert(il_datas_view(env.data_stack@) =~= before.take(before.len() - count).push(
                    tuple@,
                ));
            }
            None
        },
        Il::Def => {
            proof {
                assert(false);
            }
            None
        },
        Il::Match => {
            proof {
                assert(false);
            }
            None
        },
    }
}

/// Runs a program from empty stacks, in order. Returns the machine at the end and the
/// values that `Print` gave, in order; the definition stack stays empty.
pub fn execute(il: Vec<Il>) -> (r: (ExeEnv, Vec<IlData>))
    requires
        spec_run(Seq::empty(), ils_view(il@)) is Some,
    ensures
        spec_run(Seq::empty(), ils_view(il@)) == Some(
            (il_datas_view(r.0.data_stack@), il_datas_view(r.1@)),
        ),
        r.0.def_stack@.len() == 0,
{
    let ghost prog = ils_view(il@);
    let mut il = il;
    let mut env = ExeEnv::new();
    let mut output: Vec<IlData> = Vec::new();
    proof {
        assert(il_datas_view(env.data_stack@) =~= Seq::<SpecIlData>::empty());
        assert(il_datas_view(output@) =~= Seq::<SpecIlData>::empty());
        let outs = spec_run(Seq::empty(), prog).unwrap().1;
        assert(il_datas_view(output@) + outs =~= outs);
    }
    while il.len() > 0
        invariant
            env.def_stack@.len() == 0,
            spec_run(il_datas_view(env.data_stack@), ils_view(il@)) is Some,
            spec_run(Seq::empty(), prog) == Some(
                (
                    spec_run(il_datas_view(env.data_stack@), ils_view(il@)).unwrap().0,
                    il_datas_view(output@) + spec_run(
                        il_datas_view(env.data_stack@),
                        ils_view(il@),
                    ).unwrap().1,
                ),
            ),
        decreases il.len(),
    {
        let ghost rem = ils_view(il@);
        let ghost out_before = output@;
        let i = il.remove(0);
        proof {
            assert(ils_view(il@) =~= rem.subrange(1, rem.len() as int));
        }
        let printed_value = step(&mut env, i);
        match printed_value {
            Some(data) => {
                output.push(data);
                proof {
                    assert(il_datas_view(output@) =~= il_datas_view(out_before) + seq![data@]);
                    let outs = spec_run(il_datas_view(env.data_stack@), ils_view(il@)).unwrap().1;
                    assert(il_datas_view(output@) + outs =~= il_datas_view(out_before) + (seq![data@] + outs));
                }
            },
            None => {
                proof {
                    let outs = spec_run(il_datas_view(env.data_stack@), ils_view(il@)).unwrap().1;
                    assert(printed(None) + outs =~= outs);
                }
            },
        }
    }
    proof {
        assert(il_datas_view(output@) + Seq::<SpecIlData>::empty() =~= il_datas_view(output@));
    }
    (env, output)
}

} // verus!
