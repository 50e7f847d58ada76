use std::collections::HashMap;

use bathbot::cost::{
    mod_bonus_steps, mod_factor_percent, participation_exponent, PlayerTally,
};
use bathbot::match_costs::{process_match, rate_players};
use bathbot::model::{Game, Score, Team, TeamType, UserInfo};
use bathbot::rank::{
    insert_sorted, most_valuable, rank_players, team_result, MatchResult, RatedPlayer,
};
use bathbot::scores::MatchScores;
use bathbot::tally::tally_match;

fn cost_of(player: &PlayerTally, games: usize) -> f32 {
    let factor = player.mod_factor_percent() as f32 / 100.0;
    let mut sum = 0.0_f32;
    for cost in &player.point_costs {
        let average = cost.game_total as f32 / cost.game_players as f32;
        let mut value = cost.score as f32 / average + 0.5;
        if cost.tiebreaker {
            value = value * 2.0 - 0.5;
        }
        sum += value * factor;
    }
    let mean = sum / player.point_costs.len() as f32;
    let (num, den) = player.participation_exponent(games);
    let exponent = num as f32 / den as f32;
    mean * 1.4_f32.powf(exponent.powf(0.6))
}

fn evaluate(player: &PlayerTally, games: usize) -> u32 {
    cost_of(player, games).to_bits()
}

fn score(user_id: u32, score: u32, mods: u32, team: Team) -> Score {
    Score { user_id, score, mods, team }
}

fn users(ids: &[u32]) -> HashMap<u32, UserInfo> {
    ids.iter()
        .map(|id| (*id, UserInfo { avatar_url: format!("https://a.ppy.sh/{}", id) }))
        .collect()
}

fn rated(user_id: u32, team: Team, cost: u32) -> RatedPlayer {
    RatedPlayer { user_id, team, cost }
}

fn costs(list: &[(u32, u32)]) -> Vec<(u32, f32)> {
    list.iter().map(|(id, key)| (*id, f32::from_bits(*key))).collect()
}

#[test]
fn two_players_one_game_are_rated_one_and_two() {
    let games = vec![Game {
        team_type: TeamType::HeadToHead,
        scores: vec![score(1, 100, 0, Team::NoTeam), score(2, 300, 0, Team::NoTeam)],
    }];
    match process_match(&games, true, &users(&[1, 2]), evaluate) {
        MatchResult::HeadToHead { players, mvp, mvp_avatar_url } => {
            assert_eq!(costs(&players), vec![(2, 2.0), (1, 1.0)]);
            assert_eq!(mvp, Some(2));
            assert_eq!(mvp_avatar_url, "https://a.ppy.sh/2");
        }
        MatchResult::TeamVS { .. } => panic!("a head-to-head match"),
    }
}

#[test]
fn a_team_match_lists_blue_and_red() {
    let games = vec![Game {
        team_type: TeamType::TeamVS,
        scores: vec![
            score(1, 100, 0, Team::Blue),
            score(2, 300, 0, Team::Red),
            score(3, 200, 0, Team::Blue),
            score(4, 200, 0, Team::NoTeam),
        ],
    }];
    match process_match(&games, false, &users(&[]), evaluate) {
        MatchResult::TeamVS { blue, red, mvp, mvp_avatar_url, match_scores } => {
            assert_eq!(costs(&blue), vec![(3, 1.5), (1, 1.0)]);
            assert_eq!(costs(&red), vec![(2, 2.0)]);
            assert_eq!(mvp, Some(2));
            assert_eq!(mvp_avatar_url, "");
            assert_eq!(match_scores, MatchScores(0, 0));
        }
        MatchResult::HeadToHead { .. } => panic!("a team match"),
    }
}

#[test]
fn a_head_to_head_match_lists_only_players_without_a_team() {
    let games = vec![Game {
        team_type: TeamType::HeadToHead,
        scores: vec![
            score(1, 100, 0, Team::NoTeam),
            score(2, 300, 0, Team::Red),
            score(3, 0, 0, Team::NoTeam),
        ],
    }];
    match process_match(&games, false, &users(&[1, 2, 3]), evaluate) {
        MatchResult::HeadToHead { players, mvp, .. } => {
            assert_eq!(costs(&players), vec![(1, 1.0)]);
            // the most valuable player is looked for among all who scored
            assert_eq!(mvp, Some(2));
        }
        MatchResult::TeamVS { .. } => panic!("a head-to-head match"),
    }
}

#[test]
fn an_empty_game_leaves_the_costs_finite() {
    let games = vec![
        Game { team_type: TeamType::HeadToHead, scores: vec![score(1, 0, 0, Team::NoTeam)] },
        Game {
            team_type: TeamType::HeadToHead,
            scores: vec![score(1, 10, 0, Team::NoTeam), score(2, 30, 0, Team::NoTeam)],
        },
    ];
    let tally = tally_match(&games, true);
    for player in &tally.players {
        assert_eq!(player.point_costs.len(), 1);
        assert!(cost_of(player, tally.games).is_finite());
    }
    let only_empty =
        vec![Game { team_type: TeamType::HeadToHead, scores: vec![score(1, 0, 0, Team::NoTeam)] }];
    match process_match(&only_empty, true, &users(&[1]), evaluate) {
        MatchResult::HeadToHead { players, mvp, mvp_avatar_url } => {
            assert!(players.is_empty());
            assert_eq!(mvp, None);
            assert_eq!(mvp_avatar_url, "");
        }
        MatchResult::TeamVS { .. } => panic!("a head-to-head match"),
    }
}

#[test]
fn playing_every_game_scales_by_the_full_base() {
    let both = |a: u32, b: u32| Game {
        team_type: TeamType::HeadToHead,
        scores: vec![score(1, a, 0, Team::NoTeam), score(2, b, 0, Team::NoTeam)],
    };
    let games = vec![both(10, 10), both(10, 0), both(10, 0), both(10, 0), both(10, 0)];
    let tally = tally_match(&games, false);
    let all = &tally.players[0];
    let once = &tally.players[1];
    assert_eq!(all.participation_exponent(5), (4, 4));
    assert_eq!(once.participation_exponent(5), (0, 4));
    // alone in four games: 10 / 10 + 0.5; level in one: 10 / 10 + 0.5
    assert!((cost_of(all, 5) - 1.5 * 1.4).abs() < 1e-6);
    assert_eq!(cost_of(once, 5), 1.5);
}

#[test]
fn the_exponent_is_zero_in_a_single_game() {
    assert_eq!(participation_exponent(1, 1), (0, 1));
    assert_eq!(participation_exponent(3, 1), (0, 1));
    assert_eq!(participation_exponent(0, 4), (0, 1));
    assert_eq!(participation_exponent(1, 0), (0, 1));
    assert_eq!(participation_exponent(2, 4), (1, 3));
    assert_eq!(participation_exponent(4, 4), (3, 3));
}

#[test]
fn the_mod_factor_grows_from_the_third_combination() {
    assert_eq!(mod_bonus_steps(0), 0);
    assert_eq!(mod_bonus_steps(2), 0);
    assert_eq!(mod_bonus_steps(3), 1);
    assert_eq!(mod_factor_percent(1), 100);
    assert_eq!(mod_factor_percent(2), 100);
    assert_eq!(mod_factor_percent(3), 102);
    assert_eq!(mod_factor_percent(4), 104);
    assert_eq!(mod_factor_percent(usize::MAX), 100 + 2 * (usize::MAX as u128 - 2));
}

#[test]
fn three_mod_combinations_raise_the_cost_by_two_hundredths() {
    let game = |mods: u32| Game {
        team_type: TeamType::HeadToHead,
        scores: vec![score(1, 10, mods, Team::NoTeam), score(2, 10, 0, Team::NoTeam)],
    };
    let games = vec![game(0), game(8), game(16)];
    let tally = tally_match(&games, false);
    assert_eq!(tally.players[0].mod_combinations, 3);
    assert_eq!(tally.players[1].mod_combinations, 1);
    let plain = cost_of(&tally.players[1], 3);
    let varied = cost_of(&tally.players[0], 3);
    assert!((varied / plain - 1.02).abs() < 1e-6);
}

#[test]
fn the_tiebreaker_counts_the_last_game_twice() {
    let versus = |blue: u32, red: u32| Game {
        team_type: TeamType::TeamVS,
        scores: vec![score(1, blue, 0, Team::Blue), score(2, red, 0, Team::Red)],
    };
    let games = vec![versus(30, 10), versus(10, 30), versus(30, 10)];
    let finished = tally_match(&games, true);
    let running = tally_match(&games, false);
    // (1.5 + 0.5 + 1.5) / 3 + 0.5 against (1.5 + 0.5 + 2 * 1.5) / 3 + 0.5
    let scale = 1.4_f32;
    assert!((cost_of(&running.players[0], 3) - (5.0 / 3.0) * scale).abs() < 1e-5);
    assert!((cost_of(&finished.players[0], 3) - (6.5 / 3.0) * scale).abs() < 1e-5);
}

#[test]
fn each_player_is_rated_once_with_the_own_record() {
    let games = vec![Game {
        team_type: TeamType::TeamVS,
        scores: vec![score(5, 100, 0, Team::Blue), score(6, 300, 0, Team::Red)],
    }];
    let tally = tally_match(&games, false);
    let rated = rate_players(&tally, &|player: &PlayerTally, games: usize| {
        player.user_id * 10 + games as u32
    });
    assert_eq!(rated, vec![rated_player(5, Team::Blue, 51), rated_player(6, Team::Red, 61)]);
}

fn rated_player(user_id: u32, team: Team, cost: u32) -> RatedPlayer {
    rated(user_id, team, cost)
}

#[test]
fn lists_run_from_the_highest_cost_down() {
    let players = vec![
        rated(1, Team::Blue, 5),
        rated(2, Team::Red, 9),
        rated(3, Team::Blue, 7),
        rated(4, Team::Blue, 1),
        rated(5, Team::NoTeam, 8),
        rated(6, Team::Blue, 9),
    ];
    assert_eq!(team_result(&players, Team::Blue), vec![(6, 9), (3, 7), (1, 5), (4, 1)]);
    assert_eq!(team_result(&players, Team::Red), vec![(2, 9)]);
    assert_eq!(team_result(&players, Team::NoTeam), vec![(5, 8)]);
    assert_eq!(team_result(&Vec::new(), Team::Blue), vec![]);
}

#[test]
fn players_of_equal_cost_keep_their_order() {
    let players = vec![
        rated(1, Team::Blue, 5),
        rated(2, Team::Blue, 9),
        rated(3, Team::Blue, 5),
        rated(4, Team::Blue, 9),
        rated(5, Team::Blue, 5),
    ];
    assert_eq!(team_result(&players, Team::Blue), vec![(2, 9), (4, 9), (1, 5), (3, 5), (5, 5)]);
}

#[test]
fn an_entry_goes_behind_its_equals() {
    let mut list = vec![(1, 9), (2, 5), (3, 5), (4, 1)];
    insert_sorted(&mut list, (9, 5));
    assert_eq!(list, vec![(1, 9), (2, 5), (3, 5), (9, 5), (4, 1)]);
    insert_sorted(&mut list, (8, 10));
    assert_eq!(list[0], (8, 10));
    insert_sorted(&mut list, (7, 0));
    assert_eq!(list[6], (7, 0));
}

#[test]
fn the_first_of_the_highest_is_most_valuable() {
    let players = vec![
        rated(1, Team::Blue, 5),
        rated(2, Team::Red, 9),
        rated(3, Team::Blue, 9),
        rated(4, Team::Red, 2),
    ];
    let (mvp, avatar) = most_valuable(&players, &users(&[1, 2, 3, 4]));
    assert_eq!(mvp, Some(2));
    assert_eq!(avatar, "https://a.ppy.sh/2");
}

#[test]
fn nobody_is_most_valuable_at_cost_zero() {
    let players = vec![rated(1, Team::Blue, 0), rated(2, Team::Red, 0)];
    let (mvp, avatar) = most_valuable(&players, &users(&[1, 2]));
    assert_eq!(mvp, None);
    assert_eq!(avatar, "");
    let (mvp, avatar) = most_valuable(&Vec::new(), &users(&[1]));
    assert_eq!(mvp, None);
    assert_eq!(avatar, "");
}

#[test]
fn an_unknown_player_leaves_the_avatar_as_it_was() {
    let players = vec![rated(1, Team::Blue, 5), rated(2, Team::Red, 9)];
    let (mvp, avatar) = most_valuable(&players, &users(&[1]));
    assert_eq!(mvp, Some(2));
    assert_eq!(avatar, "https://a.ppy.sh/1");
}

#[test]
fn ranking_keeps_the_won_games() {
    let players = vec![rated(1, Team::Blue, 5), rated(2, Team::Red, 9), rated(3, Team::NoTeam, 4)];
    match rank_players(&players, true, MatchScores(3, 2), &users(&[2])) {
        MatchResult::TeamVS { blue, red, mvp, mvp_avatar_url, match_scores } => {
            assert_eq!(blue, vec![(1, 5)]);
            assert_eq!(red, vec![(2, 9)]);
            assert_eq!(mvp, Some(2));
            assert_eq!(mvp_avatar_url, "https://a.ppy.sh/2");
            assert_eq!(match_scores.blue(), 3);
            assert_eq!(match_scores.red(), 2);
        }
        MatchResult::HeadToHead { .. } => panic!("a team match"),
    }
    match rank_players(&players, false, MatchScores(3, 2), &users(&[2])) {
        MatchResult::HeadToHead { players, mvp, .. } => {
            assert_eq!(players, vec![(3, 4)]);
            assert_eq!(mvp, Some(2));
        }
        MatchResult::TeamVS { .. } => panic!("a head-to-head match"),
    }
}

#[test]
fn won_games_stop_at_the_most_a_byte_holds() {
    let mut scores = MatchScores::new();
    for _ in 0..300 {
        scores.incr(Team::Blue);
    }
    scores.incr(Team::Red);
    scores.incr(Team::NoTeam);
    assert_eq!(scores, MatchScores(255, 1));
    assert_eq!(scores.difference(), 254);
    assert_eq!(MatchScores(1, 4).difference(), 3);
}
