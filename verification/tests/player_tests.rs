use tictactoe::player::{Player, WonPlayer};

#[test]
fn new_player_starts_at_zero() {
    let p = Player::new("Player 1");
    assert_eq!(p.name, "Player 1");
    assert_eq!(p.points, 0);
}

#[test]
fn add_point_counts_every_call() {
    let mut p = Player::new("Player 2");
    for expected in 1..=5u16 {
        p.add_point();
        assert_eq!(p.points, expected);
    }
}

#[test]
fn won_player_variants_compare() {
    assert_eq!(WonPlayer::Circle, WonPlayer::Circle);
    assert_ne!(WonPlayer::Circle, WonPlayer::Crosses);
    assert_ne!(WonPlayer::Neither, WonPlayer::Crosses);
}
