use autotagger::distance::levenshtein;
use autotagger::matching::{
    assign_from_ranked, compute_observations, make_assignments, matches_by_file, rank_candidates,
    CandidateFile, Episode,
};

fn episode(id: u32, text: &str) -> Episode {
    Episode {
        id,
        season_number: 1,
        episode_number: id,
        name: format!("Episode {}", id),
        subtitle_text: String::from(text),
    }
}

fn file(stem: &str, content: &str) -> CandidateFile {
    CandidateFile { stem: String::from(stem), content: String::from(content) }
}

#[test]
fn exact_match_wins_with_closest_negative() {
    let episodes = vec![episode(1, "Hello world"), episode(2, "Goodbye world")];
    let files = vec![file("a", "Hello world")];
    let assignments = make_assignments(&episodes, &files);
    assert_eq!(assignments.len(), 1);
    let winner = assignments[0].winner.unwrap();
    assert_eq!(winner.episode_id, 1);
    assert_eq!(winner.distance, 0);
    let negative = levenshtein("Goodbye world", "Hello world");
    assert!(negative > 0);
    assert_eq!(winner.closest_negative, Some(negative));
}

#[test]
fn sole_candidate_wins_without_closest_negative() {
    let episodes = vec![episode(1, "abc")];
    let files = vec![file("a", "xyz")];
    let assignments = make_assignments(&episodes, &files);
    assert_eq!(assignments.len(), 1);
    let winner = assignments[0].winner.unwrap();
    assert_eq!(winner.episode_id, 1);
    assert_eq!(winner.distance, 3);
    assert_eq!(winner.closest_negative, None);
}

#[test]
fn zero_files_produce_zero_observations() {
    let episodes = vec![episode(1, "abc"), episode(2, "def")];
    let files: Vec<CandidateFile> = Vec::new();
    let obs = compute_observations(&episodes, &files);
    assert_eq!(obs.len(), 0);
    let assignments = make_assignments(&episodes, &files);
    assert_eq!(assignments.len(), 0);
}

#[test]
fn no_episodes_means_no_match() {
    let episodes: Vec<Episode> = Vec::new();
    let files = vec![file("a", "anything"), file("b", "else")];
    let assignments = make_assignments(&episodes, &files);
    assert_eq!(assignments.len(), 2);
    assert!(assignments[0].winner.is_none());
    assert!(assignments[1].winner.is_none());
}

#[test]
fn one_assignment_per_file_with_minimal_distance() {
    let episodes = vec![episode(1, "alpha beta"), episode(2, "gamma delta")];
    let files = vec![
        file("x", "alpha beta"),
        file("y", "gamma delta"),
        file("z", "alpha delta"),
    ];
    let assignments = make_assignments(&episodes, &files);
    assert_eq!(assignments.len(), 3);
    for (f, a) in assignments.iter().enumerate() {
        assert_eq!(a.file, f);
        let winner = a.winner.unwrap();
        for e in &episodes {
            let d = levenshtein(&e.subtitle_text, &files[f].content);
            assert!(winner.distance <= d);
        }
    }
    assert_eq!(assignments[0].winner.unwrap().episode_id, 1);
    assert_eq!(assignments[1].winner.unwrap().episode_id, 2);
}

#[test]
fn tie_breaks_to_lowest_episode_id() {
    // Both episodes carry identical text; ids arrive out of order.
    let episodes = vec![episode(7, "same text"), episode(3, "same text")];
    let files = vec![file("a", "same text")];
    let first = make_assignments(&episodes, &files);
    let winner = first[0].winner.unwrap();
    assert_eq!(winner.episode_id, 3);
    assert_eq!(winner.distance, 0);
    assert_eq!(winner.closest_negative, Some(0));
    // Deterministic across repeated runs.
    let second = make_assignments(&episodes, &files);
    assert_eq!(first, second);
}

#[test]
fn observations_are_laid_out_row_by_row() {
    let episodes = vec![episode(5, "aa"), episode(6, "bb")];
    let files = vec![file("x", "aa"), file("y", "ab")];
    let obs = compute_observations(&episodes, &files);
    assert_eq!(obs.len(), 4);
    assert_eq!(obs[0].episode_id, 5);
    assert_eq!(obs[0].file, 0);
    assert_eq!(obs[0].distance, 0);
    assert_eq!(obs[1].episode_id, 5);
    assert_eq!(obs[1].file, 1);
    assert_eq!(obs[1].distance, 1);
    assert_eq!(obs[2].episode_id, 6);
    assert_eq!(obs[2].file, 0);
    assert_eq!(obs[2].distance, 2);
    assert_eq!(obs[3].episode_id, 6);
    assert_eq!(obs[3].file, 1);
    assert_eq!(obs[3].distance, 1);
}

#[test]
fn matches_by_file_inverts_observations() {
    let episodes = vec![episode(5, "aa"), episode(6, "bb")];
    let files = vec![file("x", "aa"), file("y", "ab")];
    let obs = compute_observations(&episodes, &files);
    let by_file = matches_by_file(&episodes, &files, &obs);
    assert_eq!(by_file.len(), 2);
    assert_eq!(by_file[0], vec![(0, 5), (2, 6)]);
    assert_eq!(by_file[1], vec![(1, 5), (1, 6)]);
}

#[test]
fn ranking_sorts_by_distance_then_id() {
    let cands = vec![(4, 2), (1, 9), (1, 4), (0, 7)];
    let ranked = rank_candidates(&cands);
    assert_eq!(ranked, vec![(0, 7), (1, 4), (1, 9), (4, 2)]);
}

#[test]
fn assignment_from_ranked_candidates() {
    let empty: Vec<(usize, u32)> = Vec::new();
    let a = assign_from_ranked(0, &empty);
    assert!(a.winner.is_none());

    let one = vec![(2, 8)];
    let b = assign_from_ranked(1, &one);
    let w = b.winner.unwrap();
    assert_eq!((w.episode_id, w.distance, w.closest_negative), (8, 2, None));

    let two = vec![(2, 8), (5, 9)];
    let c = assign_from_ranked(2, &two);
    let w = c.winner.unwrap();
    assert_eq!((w.episode_id, w.distance, w.closest_negative), (8, 2, Some(5)));
}
