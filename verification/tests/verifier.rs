use proofman::field::{mulp, GOLDILOCKS_P};
use proofman::stark_verifier::check_info::check_verifier_info;
use proofman::stark_verifier::cubic::{ext_add, ext_eq, ext_eval, ext_mul, ext_square_times};
use proofman::stark_verifier::domain::{
    opening_denominators, opening_root, powp, query_point, vanishing,
};
use proofman::stark_verifier::proof_parts::split_proof;
use proofman::stark_verifier::questions::{
    evaluation_point, opened_values, query_questions, root_questions, work_input,
};
use proofman::stark_verifier::size::{expected_proof_size_bytes, tree_levels};
use proofman::stark_verifier::transcript::transcript_script;
use proofman::stark_verifier::verdict::{
    check_pow, last_level_nodes, query_position, stark_verify, QueryReply, Replies,
};
use proofman::stark_verifier::VerifierInfo;

/// Two queries on a domain of 16 points, one folding to four.
fn info() -> VerifierInfo {
    VerifierInfo {
        n_stages: 2,
        n_constants: 1,
        n_evals: 2,
        n_bits: 3,
        n_bits_ext: 4,
        arity: 2,
        n_fri_queries: 2,
        n_fri_steps: 2,
        n_challenges: 6,
        n_challenges_total: 9,
        fri_steps: vec![4, 2],
        hash_commits: false,
        num_vals: vec![1, 1, 1],
        opening_points: vec![0, 1],
        boundaries: vec![],
        q_deg: 1,
        q_index: 1,
        last_level_verification: 0,
        pow_bits: 4,
    }
}

/// A proof whose words count up, behind its publics.
fn sample_proof(publics: &[u64]) -> Vec<u64> {
    let mut words = vec![publics.len() as u64];
    words.extend_from_slice(publics);
    let n = expected_proof_size_bytes(&info()) / 8;
    words.extend(1..=n as u64);
    words
}

/// What makes the proof pass: values taken from its own parts.
fn replies(words: &[u64]) -> Replies {
    let parts = split_proof(words, &[0; 4], &info()).unwrap();
    let query = |q: usize, position: u64| {
        let group = (position % 16 / 4) as usize;
        let vals = &parts.fri[0].vals[q];
        QueryReply {
            query: position,
            constants: true,
            stages: vec![true; 3],
            fri_value: [vals[3 * group], vals[3 * group + 1], vals[3 * group + 2]],
            fri: vec![true],
            folds: vec![parts.final_pol[(position % 4) as usize]],
        }
    };
    let xi = [3, 0, 0];
    Replies {
        pow_hash: 1,
        xi,
        queries: vec![query(0, 13), query(1, 6)],
        constant_root: [0; 4],
        stage_roots: vec![],
        fri_roots: vec![],
        q_val: parts.evals[1],
        final_coefs: vec![1, 1, 1, 2, 2, 2, 0, 0, 0, 0, GOLDILOCKS_P, 0],
    }
}

#[test]
fn sizes_are_counted() {
    // 12 roots, 6 evaluations, constants 2 + 2*4*4, three stages of the same, one FRI root,
    // 2*4*3 values and 2*2*4 siblings, 4*3 words of the final polynomial, the nonce.
    let expected = 12 + 6 + (2 + 32) + 3 * (2 + 32) + 4 + (24 + 16) + 12 + 1;
    assert_eq!(expected_proof_size_bytes(&info()), 8 * expected);
    assert_eq!(tree_levels(17, 4), 9);
    assert_eq!(tree_levels(16, 16), 4);
    assert_eq!(last_level_nodes(10, 4, 16), 16);
    assert_eq!(last_level_nodes(9, 4, 16), 8);
}

#[test]
fn a_consistent_proof_is_accepted() {
    let words = sample_proof(&[7, 8]);
    assert!(stark_verify(&words, &[0; 4], &info(), &replies(&words)));
}

#[test]
fn malformed_proofs_are_refused() {
    let words = sample_proof(&[7, 8]);
    let good = replies(&words);
    assert!(!stark_verify(&[], &[0; 4], &info(), &good));
    assert!(!stark_verify(&words, &[0; 3], &info(), &good));
    assert!(!stark_verify(&words[..words.len() - 1], &[0; 4], &info(), &good));
    // A public that is not canonical stands for the same element, and is refused.
    let other = sample_proof(&[7 + GOLDILOCKS_P, 8]);
    assert!(!stark_verify(&other, &[0; 4], &info(), &good));
}

#[test]
fn every_check_counts() {
    let words = sample_proof(&[7, 8]);
    let refused = |change: fn(&mut Replies)| {
        let mut r = replies(&words);
        change(&mut r);
        !stark_verify(&words, &[0; 4], &info(), &r)
    };
    assert!(refused(|r| r.pow_hash = 1 << 60));
    assert!(refused(|r| r.queries[1].constants = false));
    assert!(refused(|r| r.queries[0].stages[2] = false));
    assert!(refused(|r| r.queries[0].fri_value[1] += 1));
    assert!(refused(|r| r.queries[1].fri[0] = false));
    assert!(refused(|r| r.queries[1].folds[0][2] += 1));
    assert!(refused(|r| r.q_val[0] += 1));
    assert!(refused(|r| r.final_coefs[6] = 1));
    assert!(!refused(|r| r.final_coefs[5] = 9));
    assert!(!refused(|r| r.q_val[0] += 0));
    assert!(check_pow(&info(), (1 << 60) - 1));
    assert_eq!(query_position(0x37, 4), 7);
}

#[test]
fn parts_lie_where_they_should() {
    let words = sample_proof(&[7, 8]);
    let p = split_proof(&words, &[0; 4], &info()).unwrap();
    assert_eq!(p.publics, vec![7, 8]);
    assert_eq!(p.roots[0], [1, 2, 3, 4]);
    assert_eq!(p.evals[1], [16, 17, 18]);
    assert_eq!(p.nonce, *words.last().unwrap());
    let script = transcript_script(&[9, 9, 9, 9], &p, &info());
    assert!(script.len() > 10);
}

#[test]
fn the_extension_is_cubic() {
    let x = [0, 1, 0];
    // x^3 = x + 1
    assert_eq!(ext_mul(&ext_mul(&x, &x), &x), [1, 1, 0]);
    assert_eq!(ext_add(&x, &[GOLDILOCKS_P - 1, 0, 5]), [GOLDILOCKS_P - 1, 1, 5]);
    assert_eq!(ext_square_times(&[3, 0, 0], 3), [6561, 0, 0]);
    assert_eq!(ext_eval(&[2, 0, 0], &vec![[1, 0, 0], [5, 0, 0], [7, 0, 0]], 1, 2), [19, 0, 0]);
    assert!(ext_eq(&[GOLDILOCKS_P, 1, 0], &[0, 1, 0]));
}

#[test]
fn domains_have_their_points() {
    assert_eq!(powp(3, 20), 3486784401);
    assert_eq!(powp(7, 0), 1);
    assert_eq!(powp(5, GOLDILOCKS_P - 1), 1);
    assert_eq!(query_point(7, 3, 4), 567);
    let w = powp(1753635133440165772, 1 << 16);
    let w_inv = powp(w, (1 << 16) - 1);
    assert_eq!(mulp(w, w_inv), 1);
    assert_eq!(opening_root(w, w_inv, -1), w_inv);
    assert_eq!(opening_root(w, w_inv, 2), mulp(w, w));
    let d = opening_denominators(10, &[2, 3, 0], w, w_inv, &vec![0, 1]);
    assert_eq!(d[0], [8, GOLDILOCKS_P - 3, 0]);
    assert_eq!(d.len(), 2);
    assert_eq!(vanishing(&[2, 0, 0], 3), [255, 0, 0]);
}

#[test]
fn questions_follow_the_query() {
    let words = sample_proof(&[7, 8]);
    let vk = [11, 12, 13, 14];
    let parts = split_proof(&words, &vk, &info()).unwrap();
    let challenges: Vec<[u64; 3]> = (0..9).map(|i| [i, 10 + i, 20 + i]).collect();
    assert_eq!(work_input(&challenges, &parts), [8, 18, 28, parts.nonce]);
    assert_eq!(evaluation_point(&challenges, &info()), [3, 13, 23]);
    let asked = query_questions(&vk, &parts, &info(), &challenges, 13, 1);
    assert_eq!(asked.constants.root, vk);
    assert_eq!(asked.constants.index, 13);
    assert_eq!(asked.constants.values, &parts.constants.vals[1]);
    assert_eq!(asked.stages.len(), 3);
    assert_eq!(asked.stages[2].root, parts.roots[2]);
    assert_eq!(asked.stages[2].siblings, &parts.stages[2].siblings[1]);
    // The FRI tree has four leaves, and its values are folded with the challenge after the six.
    assert_eq!(asked.fri.len(), 1);
    assert_eq!((asked.fri[0].root, asked.fri[0].index), (parts.roots_fri[0], 1));
    let fold = &asked.folds[0];
    assert_eq!((fold.n_bits_ext, fold.bits, fold.prev_bits, fold.index), (4, 2, 4, 1));
    assert_eq!(fold.challenge, [7, 17, 27]);
    assert_eq!(fold.values, &parts.fri[0].vals[1]);
    let values = opened_values(&parts, &info(), 0);
    assert_eq!(values.len(), 4);
    assert_eq!(values[0], &parts.constants.vals[0]);
    assert_eq!(values[3], &parts.stages[2].vals[0]);
}

#[test]
fn last_levels_are_asked_for() {
    let published = VerifierInfo { last_level_verification: 1, ..info() };
    let n = expected_proof_size_bytes(&published) / 8;
    let mut words = vec![0];
    words.extend(1..=n as u64);
    let parts = split_proof(&words, &[0; 4], &published).unwrap();
    let asked = root_questions(&parts, &published);
    assert_eq!((asked.constants.last_level, asked.constants.nodes), (&parts.constants.last_level, 2));
    assert_eq!(asked.stages.len(), 3);
    assert_eq!(asked.stages[1].last_level, &parts.stages[1].last_level);
    assert_eq!((asked.fri.len(), asked.fri[0].nodes), (1, 2));
}

#[test]
fn descriptions_are_checked() {
    assert!(check_verifier_info(&info()));
    let refused = |change: fn(&mut VerifierInfo)| {
        let mut i = info();
        change(&mut i);
        !check_verifier_info(&i)
    };
    assert!(refused(|i| i.arity = 1));
    assert!(refused(|i| i.fri_steps = vec![4]));
    assert!(refused(|i| i.fri_steps = vec![2, 4]));
    assert!(refused(|i| i.num_vals = vec![1, 1]));
    assert!(refused(|i| i.pow_bits = 0));
    assert!(refused(|i| i.n_bits = 5));
    assert!(refused(|i| i.n_bits = 1));
    assert!(refused(|i| i.q_deg = 2));
    assert!(refused(|i| i.last_level_verification = 3));
    assert!(refused(|i| i.n_fri_queries = u64::MAX));
    assert!(refused(|i| i.n_constants = u64::MAX));
}
