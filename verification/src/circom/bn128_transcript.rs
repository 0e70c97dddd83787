//! What the transcript of a BN128 verifier circuit takes in and gives out, in order.
use vstd::prelude::*;
use vstd::string::StringExecFns;

use crate::circom::bn128_info::{challenges_of, Sizes, StarkInfo};
use crate::text::{dec, push_dec};

verus! {

/// One step of a transcript.
pub enum TranscriptStep {
    /// Take in the `n` elements of a signal.
    Put { name: String, n: u64 },
    /// Take in one element.
    PutSingle { name: String },
    /// Give out a challenge.
    GetField { name: String },
    /// Give out a hash of what was taken in.
    GetFieldHash { name: String },
    /// Give out `n` positions of `bits` bits, from `fields` elements.
    GetPermutations { name: String, n: u64, bits: u64, fields: u64 },
}

/// One step of a transcript, by its texts.
pub enum StepView {
    Put { name: Seq<char>, n: u64 },
    PutSingle { name: Seq<char> },
    GetField { name: Seq<char> },
    GetFieldHash { name: Seq<char> },
    GetPermutations { name: Seq<char>, n: u64, bits: u64, fields: u64 },
}

impl View for TranscriptStep {
    type V = StepView;

    open spec fn view(&self) -> StepView {
        match *self {
            TranscriptStep::Put { name, n } => StepView::Put { name: name@, n },
            TranscriptStep::PutSingle { name } => StepView::PutSingle { name: name@ },
            TranscriptStep::GetField { name } => StepView::GetField { name: name@ },
            TranscriptStep::GetFieldHash { name } => StepView::GetFieldHash { name: name@ },
            TranscriptStep::GetPermutations { name, n, bits, fields } =>
                StepView::GetPermutations { name: name@, n, bits, fields },
        }
    }
}

/// The steps by their texts.
pub open spec fn step_views(v: Seq<TranscriptStep>) -> Seq<StepView> {
    Seq::new(v.len(), |i: int| v[i]@)
}

fn push_step(out: &mut Vec<TranscriptStep>, s: TranscriptStep)
    ensures
        step_views(final(out)@) == step_views(old(out)@).push(s@),
{
    let ghost before = out@;
    out.push(s);
    assert(step_views(out@) =~= step_views(before).push(s@));
}

fn put(out: &mut Vec<TranscriptStep>, name: &str, n: u64)
    ensures
        step_views(final(out)@) == step_views(old(out)@).push(StepView::Put { name: name@, n }),
{
    push_step(out, TranscriptStep::Put { name: name.to_owned(), n });
}

fn put_single(out: &mut Vec<TranscriptStep>, name: &str)
    ensures
        step_views(final(out)@) == step_views(old(out)@).push(
            StepView::PutSingle { name: name@ },
        ),
{
    push_step(out, TranscriptStep::PutSingle { name: name.to_owned() });
}

fn get_field(out: &mut Vec<TranscriptStep>, name: &str)
    ensures
        step_views(final(out)@) == step_views(old(out)@).push(
            StepView::GetField { name: name@ },
        ),
{
    push_step(out, TranscriptStep::GetField { name: name.to_owned() });
}

fn get_field_hash(out: &mut Vec<TranscriptStep>, name: &str)
    ensures
        step_views(final(out)@) == step_views(old(out)@).push(
            StepView::GetFieldHash { name: name@ },
        ),
{
    push_step(out, TranscriptStep::GetFieldHash { name: name.to_owned() });
}

/// Element `i` of a signal.
pub open spec fn element(signal: Seq<char>, i: nat) -> Seq<char> {
    signal + "["@ + dec(i) + "]"@
}

fn element_name(signal: &str, i: u64) -> (r: String)
    ensures
        r@ == element(signal@, i as nat),
{
    let mut s: String = signal.to_owned();
    s.append("[");
    push_dec(&mut s, i);
    s.append("]");
    s
}

/// Three words of each of the first `n` elements of a signal.
pub open spec fn puts(signal: Seq<char>, n: nat) -> Seq<StepView> {
    Seq::new(n, |i: int| StepView::Put { name: element(signal, i as nat), n: 3 })
}

fn put_elements(out: &mut Vec<TranscriptStep>, signal: &str, n: u64)
    ensures
        step_views(final(out)@) == step_views(old(out)@) + puts(signal@, n as nat),
{
    let ghost before = step_views(out@);
    let mut i: u64 = 0;
    assert(before + puts(signal@, 0) =~= before);
    while i < n
        invariant
            i <= n,
            step_views(out@) == before + puts(signal@, i as nat),
        decreases n - i,
    {
        let name: String = element_name(signal, i);
        put(out, name.as_str(), 3);
        assert(before + puts(signal@, (i + 1) as nat) =~= (before + puts(signal@, i as nat)).push(
            StepView::Put { name: name@, n: 3 },
        ));
        i = i + 1;
    }
}

/// The transcript that gives the queried positions.
pub open spec fn queries_script(z: Sizes) -> Seq<StepView> {
    seq![StepView::Put { name: "challengeFRIQueries"@, n: 3 }] + (if z.pow_bits > 0 {
        seq![StepView::PutSingle { name: "nonce"@ }]
    } else {
        Seq::empty()
    }) + seq![
        StepView::GetPermutations {
            name: "queriesFRI"@,
            n: z.n_queries,
            bits: z.step0_bits,
            fields: z.n_fields,
        },
    ]
}

/// The transcript that gives the queried positions.
pub fn queries_transcript(z: &Sizes) -> (r: Vec<TranscriptStep>)
    ensures
        step_views(r@) == queries_script(*z),
{
    let mut out: Vec<TranscriptStep> = Vec::new();
    put(&mut out, "challengeFRIQueries", 3);
    if z.pow_bits > 0 {
        put_single(&mut out, "nonce");
    }
    push_step(
        &mut out,
        TranscriptStep::GetPermutations {
            name: "queriesFRI".to_owned(),
            n: z.n_queries,
            bits: z.step0_bits,
            fields: z.n_fields,
        },
    );
    assert(step_views(out@) =~= queries_script(*z));
    out
}

/// The challenges of a stage, then its root.
pub open spec fn stage_script(stages: Seq<Option<u64>>, stage: u64) -> Seq<StepView> {
    Seq::new(
        challenges_of(stages, stage),
        |j: int|
            StepView::GetField {
                name: element("challengesStage"@ + dec(stage as nat), j as nat),
            },
    ).push(StepView::PutSingle { name: "root"@ + dec(stage as nat) })
}

/// The first `n` stages.
pub open spec fn stages_script(stages: Seq<Option<u64>>, n: nat) -> Seq<StepView>
    decreases n,
{
    if n == 0 {
        Seq::empty()
    } else {
        stages_script(stages, (n - 1) as nat) + stage_script(stages, n as u64)
    }
}

fn root_name(stage: u64) -> (r: String)
    ensures
        r@ == "root"@ + dec(stage as nat),
{
    let mut s: String = "root".to_owned();
    push_dec(&mut s, stage);
    s
}

fn put_stages(out: &mut Vec<TranscriptStep>, info: &StarkInfo, n: u64)
    requires
        n < u64::MAX,
    ensures
        step_views(final(out)@) == step_views(old(out)@) + stages_script(
            info.challenge_stages@,
            n as nat,
        ),
{
    let ghost before = step_views(out@);
    let ghost stages = info.challenge_stages@;
    let mut i: u64 = 0;
    assert(before + stages_script(stages, 0) =~= before);
    while i < n
        invariant
            i <= n,
            n < u64::MAX,
            stages == info.challenge_stages@,
            step_views(out@) == before + stages_script(stages, i as nat),
        decreases n - i,
    {
        let stage: u64 = i + 1;
        let count: u64 = info.count_challenges(stage);
        let mut signal: String = "challengesStage".to_owned();
        push_dec(&mut signal, stage);
        let ghost start = step_views(out@);
        let ghost fields = Seq::new(
            count as nat,
            |j: int| StepView::GetField { name: element(signal@, j as nat) },
        );
        let mut j: u64 = 0;
        assert(start + fields.take(0) =~= start);
        while j < count
            invariant
                j <= count,
                fields == Seq::new(
                    count as nat,
                    |j: int| StepView::GetField { name: element(signal@, j as nat) },
                ),
                step_views(out@) == start + fields.take(j as int),
            decreases count - j,
        {
            let name: String = element_name(signal.as_str(), j);
            get_field(out, name.as_str());
            assert(start + fields.take(j + 1) =~= (start + fields.take(j as int)).push(
                fields[j as int],
            ));
            j = j + 1;
        }
        let root: String = root_name(stage);
        put_single(out, root.as_str());
        proof {
            assert(fields.take(j as int) =~= fields);
            assert(stage_script(stages, stage) =~= fields.push(
                StepView::PutSingle { name: root@ },
            ));
            assert(stages_script(stages, (i + 1) as nat) == stages_script(stages, i as nat)
                + stage_script(stages, stage));
            assert(step_views(out@) =~= before + stages_script(stages, (i + 1) as nat));
        }
        i = i + 1;
    }
}

/// The FRI steps: each gives a challenge and takes the next root; the last takes the final
/// polynomial, or its hash.
pub open spec fn fri_script(z: Sizes, n: nat) -> Seq<StepView>
    decreases n,
{
    if n == 0 {
        Seq::empty()
    } else {
        fri_script(z, (n - 1) as nat).push(
            StepView::GetField { name: element("challengesFRISteps"@, (n - 1) as nat) },
        ) + (if n < z.n_steps {
            seq![StepView::PutSingle { name: "s"@ + dec(n) + "_root"@ }]
        } else if !z.hash_commits {
            puts("finalPol"@, z.final_pol_size as nat)
        } else {
            seq![StepView::PutSingle { name: "lastPolFRIHash"@ }]
        })
    }
}

fn step_root_name(s: u64) -> (r: String)
    ensures
        r@ == "s"@ + dec(s as nat) + "_root"@,
{
    let mut out: String = "s".to_owned();
    push_dec(&mut out, s);
    out.append("_root");
    out
}

fn put_fri(out: &mut Vec<TranscriptStep>, z: &Sizes)
    ensures
        step_views(final(out)@) == step_views(old(out)@) + fri_script(*z, z.n_steps as nat),
{
    let ghost before = step_views(out@);
    let mut i: u64 = 0;
    assert(before + fri_script(*z, 0) =~= before);
    while i < z.n_steps
        invariant
            i <= z.n_steps,
            step_views(out@) == before + fri_script(*z, i as nat),
        decreases z.n_steps - i,
    {
        let challenge: String = element_name("challengesFRISteps", i);
        get_field(out, challenge.as_str());
        let ghost mid = fri_script(*z, i as nat).push(StepView::GetField { name: challenge@ });
        assert(step_views(out@) =~= before + mid);
        if i + 1 < z.n_steps {
            let root: String = step_root_name(i + 1);
            put_single(out, root.as_str());
        } else if !z.hash_commits {
            put_elements(out, "finalPol", z.final_pol_size);
        } else {
            put_single(out, "lastPolFRIHash");
        }
        assert(step_views(out@) =~= before + fri_script(*z, (i + 1) as nat));
        i = i + 1;
    }
}

/// The main transcript.
pub open spec fn main_script(info: StarkInfo, z: Sizes) -> Seq<StepView> {
    seq![StepView::PutSingle { name: "rootC"@ }] + (if z.n_publics == 0 {
        Seq::empty()
    } else if !z.hash_commits {
        seq![StepView::Put { name: "publics"@, n: z.n_publics }]
    } else {
        seq![StepView::PutSingle { name: "publicsHash"@ }]
    }) + stages_script(info.challenge_stages@, z.n_stages as nat) + seq![
        StepView::GetField { name: "challengeQ"@ },
        StepView::PutSingle { name: "root"@ + dec(z.q_stage as nat) },
        StepView::GetField { name: "challengeXi"@ },
    ] + (if !z.hash_commits {
        puts("evals"@, info.ev_map@.len())
    } else {
        seq![StepView::PutSingle { name: "evalsHash"@ }]
    }) + seq![
        StepView::GetField { name: element("challengesFRI"@, 0) },
        StepView::GetField { name: element("challengesFRI"@, 1) },
    ] + fri_script(z, z.n_steps as nat) + seq![
        StepView::GetField { name: "challengeFRIQueries"@ },
    ]
}

/// The main transcript.
pub fn main_transcript(info: &StarkInfo, z: &Sizes) -> (r: Vec<TranscriptStep>)
    requires
        z.n_stages < u64::MAX,
    ensures
        step_views(r@) == main_script(*info, *z),
{
    let mut out: Vec<TranscriptStep> = Vec::new();
    put_single(&mut out, "rootC");
    if z.n_publics > 0 {
        if !z.hash_commits {
            put(&mut out, "publics", z.n_publics);
        } else {
            put_single(&mut out, "publicsHash");
        }
    }
    put_stages(&mut out, info, z.n_stages);
    get_field(&mut out, "challengeQ");
    let root: String = root_name(z.q_stage);
    put_single(&mut out, root.as_str());
    get_field(&mut out, "challengeXi");
    if !z.hash_commits {
        put_elements(&mut out, "evals", info.ev_map.len() as u64);
    } else {
        put_single(&mut out, "evalsHash");
    }
    let first: String = element_name("challengesFRI", 0);
    let second: String = element_name("challengesFRI", 1);
    get_field(&mut out, first.as_str());
    get_field(&mut out, second.as_str());
    put_fri(&mut out, z);
    get_field(&mut out, "challengeFRIQueries");
    assert(step_views(out@) =~= main_script(*info, *z));
    out
}

/// The transcripts of a verifier circuit. One that a circuit does not need is empty.
pub struct Transcripts {
    pub queries: Vec<TranscriptStep>,
    pub main: Vec<TranscriptStep>,
    /// Those that hash the publics, the evaluations and the final polynomial.
    pub publics: Vec<TranscriptStep>,
    pub evals: Vec<TranscriptStep>,
    pub last_pol: Vec<TranscriptStep>,
}

/// The transcripts of a verifier circuit.
pub open spec fn are_transcripts(r: Transcripts, info: StarkInfo, z: Sizes) -> bool {
    &&& step_views(r.queries@) == queries_script(z)
    &&& step_views(r.main@) == main_script(info, z)
    &&& step_views(r.publics@) == if z.n_publics > 0 && z.hash_commits {
        seq![
            StepView::Put { name: "publics"@, n: z.n_publics },
            StepView::GetFieldHash { name: "publicsHash"@ },
        ]
    } else {
        Seq::empty()
    }
    &&& step_views(r.evals@) == if z.hash_commits {
        puts("evals"@, info.ev_map@.len()).push(StepView::GetFieldHash { name: "evalsHash"@ })
    } else {
        Seq::empty()
    }
    &&& step_views(r.last_pol@) == if z.hash_commits && z.n_steps > 0 {
        puts("finalPol"@, z.final_pol_size as nat).push(
            StepView::GetFieldHash { name: "lastPolFRIHash"@ },
        )
    } else {
        Seq::empty()
    }
}

/// The transcripts of a verifier circuit.
pub fn transcripts(info: &StarkInfo, z: &Sizes) -> (r: Transcripts)
    requires
        z.n_stages < u64::MAX,
    ensures
        are_transcripts(r, *info, *z),
{
    let mut publics: Vec<TranscriptStep> = Vec::new();
    let mut evals: Vec<TranscriptStep> = Vec::new();
    let mut last_pol: Vec<TranscriptStep> = Vec::new();
    proof {
        assert(step_views(publics@) =~= Seq::empty());
    }
    if z.hash_commits {
        if z.n_publics > 0 {
            put(&mut publics, "publics", z.n_publics);
            get_field_hash(&mut publics, "publicsHash");
        }
        put_elements(&mut evals, "evals", info.ev_map.len() as u64);
        get_field_hash(&mut evals, "evalsHash");
        if z.n_steps > 0 {
            put_elements(&mut last_pol, "finalPol", z.final_pol_size);
            get_field_hash(&mut last_pol, "lastPolFRIHash");
        }
    }
    let r = Transcripts {
        queries: queries_transcript(z),
        main: main_transcript(info, z),
        publics,
        evals,
        last_pol,
    };
    proof {
        if z.hash_commits && z.n_publics > 0 {
            assert(step_views(r.publics@) =~= seq![
                StepView::Put { name: "publics"@, n: z.n_publics },
                StepView::GetFieldHash { name: "publicsHash"@ },
            ]);
        }
        if z.hash_commits {
            assert(step_views(r.evals@) =~= puts("evals"@, info.ev_map@.len()).push(
                StepView::GetFieldHash { name: "evalsHash"@ },
            ));
            if z.n_steps > 0 {
                assert(step_views(r.last_pol@) =~= puts("finalPol"@, z.final_pol_size as nat).push(
                    StepView::GetFieldHash { name: "lastPolFRIHash"@ },
                ));
            }
        }
        if !z.hash_commits {
            assert(step_views(r.evals@) =~= Seq::empty());
        }
        if !(z.hash_commits && z.n_steps > 0) {
            assert(step_views(r.last_pol@) =~= Seq::empty());
        }
    }
    r
}

} // verus!
