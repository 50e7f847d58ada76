use bathbot::cost::{PlayerTally, PointCost};
use bathbot::model::{Game, Score, Team, TeamType};
use bathbot::scores::MatchScores;
use bathbot::tally::tally_match;

fn score(user_id: u32, score: u32, mods: u32, team: Team) -> Score {
    Score { user_id, score, mods, team }
}

fn game(team_type: TeamType, scores: Vec<Score>) -> Game {
    Game { team_type, scores }
}

fn player(players: &[PlayerTally], user_id: u32) -> &PlayerTally {
    players.iter().find(|p| p.user_id == user_id).expect("player is listed")
}

fn versus(blue: u32, red: u32) -> Game {
    game(
        TeamType::TeamVS,
        vec![score(1, blue, 0, Team::Blue), score(2, red, 0, Team::Red)],
    )
}

#[test]
fn two_players_one_game() {
    let games = vec![game(
        TeamType::HeadToHead,
        vec![score(1, 100, 0, Team::NoTeam), score(2, 300, 0, Team::NoTeam)],
    )];
    let tally = tally_match(&games, true);
    assert_eq!(tally.games, 1);
    assert!(!tally.team_vs);
    assert!(!tally.tiebreaker);
    assert_eq!(tally.players.len(), 2);
    let a = &tally.players[0];
    let b = &tally.players[1];
    assert_eq!(a.user_id, 1);
    assert_eq!(b.user_id, 2);
    assert_eq!(
        a.point_costs,
        vec![PointCost { score: 100, game_total: 400, game_players: 2, tiebreaker: false }]
    );
    // 100 / 200 + 1/2 = 1 and 300 / 200 + 1/2 = 2
    assert_eq!(a.point_costs[0].numerator(), 800);
    assert_eq!(a.point_costs[0].denominator(), 800);
    assert_eq!(b.point_costs[0].numerator(), 1600);
    assert_eq!(b.point_costs[0].denominator(), 800);
}

#[test]
fn zero_scores_are_no_participation() {
    let games = vec![
        game(
            TeamType::HeadToHead,
            vec![score(1, 0, 0, Team::NoTeam), score(2, 50, 0, Team::NoTeam)],
        ),
        game(
            TeamType::HeadToHead,
            vec![score(1, 0, 8, Team::NoTeam), score(3, 70, 0, Team::NoTeam)],
        ),
    ];
    let tally = tally_match(&games, false);
    let ids: Vec<u32> = tally.players.iter().map(|p| p.user_id).collect();
    assert_eq!(ids, vec![2, 3]);
    // the zero score is left out of the count of scorers, too
    assert_eq!(player(&tally.players, 2).point_costs[0].game_players, 1);
    assert_eq!(player(&tally.players, 2).point_costs[0].game_total, 50);
}

#[test]
fn players_stand_in_the_order_first_seen() {
    let games = vec![
        game(
            TeamType::HeadToHead,
            vec![score(9, 10, 0, Team::NoTeam), score(4, 10, 0, Team::NoTeam)],
        ),
        game(
            TeamType::HeadToHead,
            vec![
                score(7, 10, 0, Team::NoTeam),
                score(4, 10, 0, Team::NoTeam),
                score(9, 10, 0, Team::NoTeam),
            ],
        ),
    ];
    let tally = tally_match(&games, false);
    let ids: Vec<u32> = tally.players.iter().map(|p| p.user_id).collect();
    assert_eq!(ids, vec![9, 4, 7]);
    assert_eq!(player(&tally.players, 9).point_costs.len(), 2);
    assert_eq!(player(&tally.players, 4).point_costs.len(), 2);
    assert_eq!(player(&tally.players, 7).point_costs.len(), 1);
}

#[test]
fn a_game_without_valid_scores_adds_nothing() {
    let games = vec![
        versus(10, 20),
        game(
            TeamType::TeamVS,
            vec![score(1, 0, 0, Team::Blue), score(2, 0, 0, Team::Red), score(3, 0, 0, Team::Red)],
        ),
        game(TeamType::TeamVS, vec![]),
    ];
    let tally = tally_match(&games, true);
    assert_eq!(tally.games, 3);
    assert_eq!(tally.players.len(), 2);
    for p in &tally.players {
        assert_eq!(p.point_costs.len(), 1);
        assert!(p.point_costs[0].denominator() > 0);
    }
    assert_eq!(tally.match_scores, MatchScores(0, 1));
}

#[test]
fn tiebreaker_needs_a_win_by_one_game() {
    // 2 - 1 for blue: the third game decided the match
    let close = vec![versus(20, 10), versus(10, 20), versus(30, 10)];
    let tally = tally_match(&close, true);
    assert_eq!(tally.match_scores, MatchScores(2, 1));
    assert!(tally.tiebreaker);
    for p in &tally.players {
        let flags: Vec<bool> = p.point_costs.iter().map(|c| c.tiebreaker).collect();
        assert_eq!(flags, vec![false, false, true]);
    }
    // 30 of 40 with two scorers: 2 * 30 / 20 + 1/2 = 7/2
    let last = player(&tally.players, 1).point_costs[2];
    assert_eq!(last.numerator(), 4 * 30 * 2 + 40);
    assert_eq!(last.denominator(), 80);

    // 2 - 0 for blue: the middle game was drawn
    let clear = vec![versus(20, 10), versus(15, 15), versus(30, 10)];
    let tally = tally_match(&clear, true);
    assert_eq!(tally.match_scores, MatchScores(2, 0));
    assert!(!tally.tiebreaker);
    for p in &tally.players {
        assert!(p.point_costs.iter().all(|c| !c.tiebreaker));
    }
}

#[test]
fn tiebreaker_needs_a_finished_match_of_three_games() {
    let close = vec![versus(20, 10), versus(10, 20), versus(30, 10)];
    let running = tally_match(&close, false);
    assert!(!running.tiebreaker);
    assert!(running.players.iter().all(|p| p.point_costs.iter().all(|c| !c.tiebreaker)));

    let short = vec![versus(20, 10), game(TeamType::TeamVS, vec![])];
    let tally = tally_match(&short, true);
    assert_eq!(tally.match_scores.difference(), 1);
    assert!(!tally.tiebreaker);
}

#[test]
fn tiebreaker_weighs_only_those_who_scored_in_the_last_game() {
    let games = vec![
        game(
            TeamType::TeamVS,
            vec![score(1, 20, 0, Team::Blue), score(2, 10, 0, Team::Red), score(3, 5, 0, Team::Red)],
        ),
        versus(10, 20),
        game(
            TeamType::TeamVS,
            vec![score(1, 30, 0, Team::Blue), score(2, 10, 0, Team::Red), score(3, 0, 0, Team::Red)],
        ),
    ];
    let tally = tally_match(&games, true);
    assert!(tally.tiebreaker);
    let flags = |id: u32| -> Vec<bool> {
        player(&tally.players, id).point_costs.iter().map(|c| c.tiebreaker).collect()
    };
    assert_eq!(flags(1), vec![false, false, true]);
    assert_eq!(flags(2), vec![false, false, true]);
    assert_eq!(flags(3), vec![false]);
}

#[test]
fn mod_combinations_are_counted_once_and_without_no_fail() {
    let hidden = 8;
    let hard_rock = 16;
    let double_time = 64;
    let games = vec![
        game(
            TeamType::HeadToHead,
            vec![score(1, 10, 0, Team::NoTeam), score(2, 10, hidden, Team::NoTeam)],
        ),
        game(
            TeamType::HeadToHead,
            vec![score(1, 10, 1, Team::NoTeam), score(2, 10, hard_rock, Team::NoTeam)],
        ),
        game(
            TeamType::HeadToHead,
            vec![score(1, 10, hidden, Team::NoTeam), score(2, 10, double_time, Team::NoTeam)],
        ),
        game(
            TeamType::HeadToHead,
            vec![score(1, 10, hidden | 1, Team::NoTeam), score(2, 10, 0, Team::NoTeam)],
        ),
    ];
    let tally = tally_match(&games, false);
    let one = player(&tally.players, 1);
    let two = player(&tally.players, 2);
    assert_eq!(one.mod_combinations, 2);
    assert_eq!(one.mod_factor_percent(), 100);
    assert_eq!(two.mod_combinations, 4);
    assert_eq!(two.mod_factor_percent(), 104);
}

#[test]
fn the_first_team_of_a_player_stays() {
    let games = vec![
        game(TeamType::TeamVS, vec![score(1, 10, 0, Team::Red), score(2, 10, 0, Team::Blue)]),
        game(TeamType::TeamVS, vec![score(1, 10, 0, Team::Blue), score(2, 10, 0, Team::Blue)]),
    ];
    let tally = tally_match(&games, false);
    assert!(tally.team_vs);
    assert_eq!(player(&tally.players, 1).team, Team::Red);
    assert_eq!(player(&tally.players, 2).team, Team::Blue);
}

#[test]
fn the_first_game_sets_the_team_type() {
    let games = vec![
        game(TeamType::TagCoop, vec![score(1, 10, 0, Team::NoTeam)]),
        game(TeamType::TeamVS, vec![score(1, 10, 0, Team::Blue)]),
    ];
    assert!(!tally_match(&games, false).team_vs);
    let games = vec![
        game(TeamType::TeamVS, vec![score(1, 10, 0, Team::Blue)]),
        game(TeamType::HeadToHead, vec![score(1, 10, 0, Team::NoTeam)]),
    ];
    assert!(tally_match(&games, false).team_vs);
}

#[test]
fn a_drawn_game_is_won_by_neither_team() {
    let games = vec![versus(10, 10), versus(0, 0), versus(5, 4), versus(1, 7)];
    let tally = tally_match(&games, false);
    assert_eq!(tally.match_scores, MatchScores(1, 1));
    assert_eq!(tally.match_scores.blue(), 1);
    assert_eq!(tally.match_scores.red(), 1);
    assert_eq!(tally.match_scores.difference(), 0);
}

#[test]
fn a_team_wins_by_the_sum_of_its_scores() {
    let games = vec![game(
        TeamType::TeamVS,
        vec![
            score(1, 50, 0, Team::Blue),
            score(2, 30, 0, Team::Red),
            score(3, 30, 0, Team::Red),
            score(4, 900, 0, Team::NoTeam),
        ],
    )];
    let tally = tally_match(&games, false);
    assert_eq!(tally.match_scores, MatchScores(0, 1));
    assert_eq!(player(&tally.players, 1).point_costs[0].game_total, 1010);
    assert_eq!(player(&tally.players, 1).point_costs[0].game_players, 4);
}
