use connect_4::board::{BadMove, BOARD_COLUMNS};
use connect_4::referee::{AgentFault, GameEnd, Player, Referee, Turn};

fn play(width: u8, replies: &[Result<u8, AgentFault>]) -> Referee {
    let mut r = Referee::new(width);
    for &reply in replies {
        match r.turn() {
            Turn::Ask(_) => r.submit(reply),
            Turn::Over(_) => panic!("game ended before all replies were given"),
        }
    }
    r
}

#[test]
fn first_turn_is_player_one() {
    let r = Referee::new(BOARD_COLUMNS);
    assert_eq!(r.turn(), Turn::Ask(Player::One));
    assert_eq!(r.moves(), 0);
    assert_eq!(Player::One.other(), Player::Two);
    assert_eq!(Player::Two.other(), Player::One);
}

#[test]
fn turns_alternate() {
    let r = play(7, &[Ok(3)]);
    assert_eq!(r.turn(), Turn::Ask(Player::Two));
    let r = play(7, &[Ok(3), Ok(3)]);
    assert_eq!(r.turn(), Turn::Ask(Player::One));
    assert_eq!(r.moves(), 2);
    assert_eq!(r.board().heights[3], 2);
}

#[test]
fn vertical_win_scenario() {
    let r = play(7, &[Ok(0), Ok(6), Ok(0), Ok(6), Ok(0), Ok(6), Ok(0)]);
    assert_eq!(r.turn(), Turn::Over(GameEnd::Win(Player::One)));
    assert_eq!(r.moves(), 7);
}

#[test]
fn second_player_can_win() {
    let r = play(7, &[Ok(0), Ok(1), Ok(0), Ok(2), Ok(6), Ok(3), Ok(6), Ok(4)]);
    assert_eq!(r.turn(), Turn::Over(GameEnd::Win(Player::Two)));
    assert_eq!(r.moves(), 8);
}

#[test]
fn agent_fault_loses() {
    let r = play(7, &[Ok(2), Err(AgentFault)]);
    assert_eq!(r.turn(), Turn::Over(GameEnd::Loss(Player::Two, BadMove::AgentFault)));
    assert_eq!(r.moves(), 1);
}

#[test]
fn invalid_column_loses() {
    let r = play(7, &[Ok(7)]);
    assert_eq!(r.turn(), Turn::Over(GameEnd::Loss(Player::One, BadMove::ColumnInvalid)));
    assert_eq!(r.moves(), 0);
    assert_eq!(r.board().heights, vec![0; 7]);
}

#[test]
fn full_column_loses() {
    let mut replies = vec![Ok(0); 6];
    replies.push(Ok(0));
    let r = play(2, &replies);
    assert_eq!(r.turn(), Turn::Over(GameEnd::Loss(Player::One, BadMove::ColumnFull)));
    assert_eq!(r.moves(), 6);
    assert_eq!(r.board().heights, vec![6, 0]);
}

#[test]
fn single_column_draw() {
    let r = play(1, &[Ok(0); 6]);
    assert_eq!(r.turn(), Turn::Over(GameEnd::Draw));
    assert_eq!(r.moves(), 6);
}

#[test]
fn full_board_draw() {
    let order: [u8; 42] = [
        5, 4, 5, 0, 6, 2, 4, 5, 5, 0, 4, 1, 1, 0, 4, 5, 6, 5, 3, 1, 1, 2, 2, 6, 2, 6, 6, 3, 6,
        2, 0, 3, 0, 3, 3, 4, 3, 1, 4, 2, 1, 0,
    ];
    let replies: Vec<Result<u8, AgentFault>> = order.iter().map(|&c| Ok(c)).collect();
    let r = play(7, &replies[..41]);
    assert_eq!(r.turn(), Turn::Ask(Player::Two));
    let r = play(7, &replies);
    assert_eq!(r.turn(), Turn::Over(GameEnd::Draw));
    assert_eq!(r.moves(), 42);
    assert_eq!(r.board().heights, vec![6; 7]);
}
