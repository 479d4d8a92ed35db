use blockworld::block::Block;
use blockworld::commands::{process_command, tps, CommandReply};
use blockworld::connection::{ClientConnection, PeerAddr};
use blockworld::console::{ArgParseError, Argument, Command, CommandError};
use blockworld::item::{Item, ItemStack};
use blockworld::network::{Outbound, PacketTypes};
use blockworld::player::{Acceleration, Player, Velocity};
use blockworld::scalar::UNIT;
use blockworld::stats::TickStats;
use blockworld::terrain::WorldType;
use blockworld::world::{World, WorldError};

fn parsed(line: &str) -> String {
    format!("{:?}", Command::parse(line))
}

#[test]
fn plain_commands_are_read() {
    for (line, expected) in [
        ("help", "Ok(Help)"),
        ("h", "Ok(Help)"),
        ("?", "Ok(Help)"),
        ("  stop \t", "Ok(Shutdown)"),
        ("exit", "Ok(Shutdown)"),
        ("mspt", "Ok(Mspt)"),
        ("tps", "Ok(Tps)"),
        ("players", "Ok(Players)"),
        ("p", "Ok(Players)"),
        ("help me please", "Ok(Help)"),
    ] {
        assert_eq!(parsed(line), expected);
    }
}

#[test]
fn commands_with_arguments_are_read() {
    assert_eq!(parsed("kick 12 griefing"), "Ok(Kick(12, \"griefing\"))");
    assert_eq!(parsed("kick 12 two words"), "Ok(Kick(12, \"two\"))");
    assert_eq!(parsed("kick +7 "), "Err(MissingArgument(Reason))");
    assert_eq!(parsed("kick 7  x"), "Ok(Kick(7, \"\"))");
    assert_eq!(parsed("respawn 4294967295"), "Ok(Respawn(4294967295))");
    assert_eq!(parsed("tp 3 1.5 -2"), format!("Ok(Teleport {{ id: 3, x: {}, y: {} }})", UNIT + UNIT / 2, -2 * UNIT));
    assert_eq!(parsed("teleport 3 .25 7."), format!("Ok(Teleport {{ id: 3, x: {}, y: {} }})", UNIT / 4, 7 * UNIT));
    assert_eq!(parsed("get 4 5"), "Ok(GetBlock { x: 4, y: 5 })");
    assert_eq!(parsed("block_at 4 5"), "Ok(GetBlock { x: 4, y: 5 })");
    assert_eq!(parsed("set 1 2 Stone"), "Ok(SetBlock { pos: (1, 2, Stone) })");
    assert_eq!(parsed("set 1 2 Water"), "Ok(SetBlock { pos: (1, 2, Water) })");
    assert_eq!(parsed("spawn 99"), "Ok(SetSpawn(99))");
    assert_eq!(parsed("spawn_range 8"), "Ok(SetSpawnRange(8))");
    assert_eq!(parsed("invsee 1"), "Ok(InventorySee(1))");
    assert_eq!(parsed("inventorysee 1"), "Ok(InventorySee(1))");
}

#[test]
fn bad_lines_are_refused_with_reason() {
    assert_eq!(parsed(""), "Err(InvalidCommand(\"\"))");
    assert_eq!(parsed("dance now"), "Err(InvalidCommand(\"dance\"))");
    assert_eq!(parsed("Help"), "Err(InvalidCommand(\"Help\"))");
    assert_eq!(parsed("kick"), "Err(MissingArgument(PlayerId))");
    assert_eq!(parsed("kick abc why"), "Err(ArgParseError { arg: PlayerId, err: Int })");
    assert_eq!(parsed("respawn 4294967296"), "Err(ArgParseError { arg: PlayerId, err: Int })");
    assert_eq!(parsed("respawn -1"), "Err(ArgParseError { arg: PlayerId, err: Int })");
    assert_eq!(parsed("respawn +"), "Err(ArgParseError { arg: PlayerId, err: Int })");
    assert_eq!(parsed("get 4"), "Err(MissingArgument(Y))");
    assert_eq!(parsed("get  4"), "Err(ArgParseError { arg: X, err: Int })");
    assert_eq!(parsed("tp 1 x 2"), "Err(ArgParseError { arg: X, err: Scalar })");
    assert_eq!(parsed("tp 1 2 ."), "Err(ArgParseError { arg: Y, err: Scalar })");
    assert_eq!(parsed("tp 1 2 1.0000000001"), "Err(ArgParseError { arg: Y, err: Scalar })");
    assert_eq!(parsed("tp 1 2"), "Err(MissingArgument(Y))");
    assert_eq!(parsed("set 1 2 stone"), "Err(ArgParseError { arg: Block, err: Block })");
    assert_eq!(parsed("set 1 2"), "Err(MissingArgument(Block))");
    assert_eq!(parsed("spawn_range 0"), "Err(ArgParseError { arg: Range, err: ZeroInt })");
    assert_eq!(parsed("spawn_range"), "Err(MissingArgument(Range))");
    let e: Result<Command, CommandError> = "spawn".parse();
    assert!(matches!(e, Err(CommandError::MissingArgument(Argument::X))));
    let e: Result<Command, CommandError> = "spawn q".parse();
    assert!(matches!(
        e,
        Err(CommandError::ArgParseError { arg: Argument::X, err: ArgParseError::Int })
    ));
}

#[test]
fn decimal_digits_round_down_to_unit() {
    // one unit is 0.00000064 blocks
    assert_eq!(parsed("tp 1 0.000001 0.00000064"), "Ok(Teleport { id: 1, x: 1, y: 1 })");
    assert_eq!(parsed("tp 1 0.0000006 -0.999999999"), format!("Ok(Teleport {{ id: 1, x: 0, y: {} }})", -(UNIT - 1)));
}

fn addr(n: u16) -> PeerAddr {
    PeerAddr { ip: 9, port: n }
}

fn world() -> World {
    let mut w = World::generate(32, 32, 16, 16, 4, WorldType::Flat { grass_height: 2 }).unwrap();
    let mut p = Player {
        x: 3 * UNIT,
        y: 3 * UNIT,
        health: 7_812_500,
        hitbox_width: 1,
        hitbox_height: 2,
        velocity: Velocity { x: 5, y: 6 },
        acceleration: Acceleration { x: 7, y: 8 },
        do_jump: false,
        inventory: [None; 9],
        selected_slot: 0,
    };
    p.inventory[4] = Some(ItemStack { item: Item::Wood, count: 12 });
    w.players.push(ClientConnection::new(addr(1), "a".to_string(), 1, p));
    w.players.push(ClientConnection::new(addr(2), "b".to_string(), 2, p));
    w.mark_chunk_loaded_by_id(0, 0, 2).unwrap();
    w
}

fn run(w: &mut World, line: &str) -> (CommandReply, Vec<Outbound>) {
    let mut out = Vec::new();
    let command = Command::parse(line).unwrap();
    let times = [1_000_000u64, 2_000_000, 40_000_000, 50_000_000, 100_000_000, 0, 999_999, 1_000_000_000];
    let reply = process_command(&mut out, w, command, times, 20_000_000, 4_000_000);
    (reply, out)
}

#[test]
fn commands_without_effect_only_answer() {
    let mut w = world();
    assert!(matches!(run(&mut w, "help").0, CommandReply::Help));
    assert!(matches!(run(&mut w, "stop").0, CommandReply::Stopping));
    assert!(matches!(run(&mut w, "players").0, CommandReply::Players(2)));
    match run(&mut w, "mspt").0 {
        CommandReply::Mspt { physics, last, averages } => {
            assert_eq!((physics, last), (4_000_000, 20_000_000));
            assert_eq!(averages[2], 40_000_000);
        }
        other => panic!("unexpected reply {other:?}"),
    }
    match run(&mut w, "tps").0 {
        CommandReply::Tps { physics, last, averages } => {
            assert_eq!(physics, 125);
            assert_eq!(last, 30);
            assert_eq!(averages, [30, 30, 25, 20, 10, 30, 30, 1]);
        }
        other => panic!("unexpected reply {other:?}"),
    }
    assert!(matches!(
        run(&mut w, "get 3 2").0,
        CommandReply::BlockAt((3, 2, Block::Grass))
    ));
    assert!(matches!(
        run(&mut w, "get 3 99").0,
        CommandReply::Refused(WorldError::OutOfBoundsBlock(3, 99))
    ));
    match run(&mut w, "invsee 2").0 {
        CommandReply::Inventory(slots) => {
            assert_eq!(slots[4], Some(ItemStack { item: Item::Wood, count: 12 }))
        }
        other => panic!("unexpected reply {other:?}"),
    }
    assert!(matches!(run(&mut w, "invsee 9").0, CommandReply::NoSuchPlayer(9)));
}

#[test]
fn commands_change_the_world() {
    let mut w = world();
    let (reply, out) = run(&mut w, "set 5 5 Wood");
    assert!(matches!(reply, CommandReply::BlockSet((5, 5, Block::Wood))));
    assert_eq!(w.get_block(5, 5), Ok(Block::Wood));
    assert_eq!(out.len(), 1);
    assert_eq!(out[0].addr, addr(2));
    assert!(matches!(
        run(&mut w, "set 5 50 Wood").0,
        CommandReply::Refused(WorldError::OutOfBoundsBlock(5, 50))
    ));
    assert!(matches!(run(&mut w, "spawn 12").0, CommandReply::SpawnSet(12)));
    assert_eq!(w.spawn_point, 12);
    assert!(matches!(
        run(&mut w, "spawn 32").0,
        CommandReply::Refused(WorldError::OutOfBoundsBlock(32, 0))
    ));
    assert!(matches!(run(&mut w, "spawn_range 3").0, CommandReply::SpawnRangeSet(3)));
    assert_eq!(w.spawn_range, 3);
    assert!(matches!(
        run(&mut w, "spawn_range 17").0,
        CommandReply::Refused(WorldError::SpawnRangeTooLarge)
    ));
    let (reply, _) = run(&mut w, "tp 1 20.5 9");
    assert!(matches!(reply, CommandReply::Teleported(1)));
    let p = w.players[0].server_player;
    assert_eq!((p.x, p.y), (20 * UNIT + UNIT / 2, 9 * UNIT));
    assert_eq!(p.velocity, Velocity { x: 0, y: 0 });
    assert_eq!(p.acceleration, Acceleration { x: 0, y: 0 });
    assert_eq!(w.physics_update_queue.len(), 1);
    assert!(matches!(run(&mut w, "tp 5 1 1").0, CommandReply::NoSuchPlayer(5)));
    let (reply, _) = run(&mut w, "respawn 2");
    assert!(matches!(reply, CommandReply::Respawned(2)));
    let p = w.players[1].server_player;
    assert_eq!(p.y, 3 * UNIT);
    assert!((9..15).contains(&(p.x / UNIT)));
    assert!(matches!(run(&mut w, "respawn 5").0, CommandReply::NoSuchPlayer(5)));
    let (reply, out) = run(&mut w, "kick 2 rude");
    assert!(matches!(reply, CommandReply::Kicked(2)));
    match &out[0].packet {
        PacketTypes::ServerKick { msg } => assert_eq!(msg, "rude"),
        other => panic!("unexpected packet {other:?}"),
    }
    assert_eq!(w.players.len(), 1);
    assert!(matches!(run(&mut w, "kick 2 rude").0, CommandReply::NoSuchPlayer(2)));
}

#[test]
fn ticks_per_second_are_capped_by_tick_rate() {
    assert_eq!(tps(0, 30), 30);
    assert_eq!(tps(33_000_000, 30), 30);
    assert_eq!(tps(34_000_000, 30), 29);
    assert_eq!(tps(500_000_000, 30), 2);
    assert_eq!(tps(7_999_999, 125), 125);
    assert_eq!(tps(10_000_000, 125), 100);
}

#[test]
fn tick_times_are_averaged_per_window() {
    let mut s = TickStats::new();
    s.record(10);
    s.record(20);
    s.record(33);
    assert_eq!(s.current, [21; 8]);
    assert_eq!(s.count, [3; 8]);
    s.second_passed();
    assert_eq!(s.uptime, 1);
    assert_eq!(s.saved, [21, 0, 0, 0, 0, 0, 0, 0]);
    assert_eq!(s.current, [0, 21, 21, 21, 21, 21, 21, 21]);
    assert_eq!(s.count, [0, 3, 3, 3, 3, 3, 3, 3]);
    s.record(5);
    assert_eq!(s.current[0], 5);
    assert_eq!(s.current[1], 17);
    for _ in 0..4 {
        s.second_passed();
    }
    assert_eq!(s.uptime, 5);
    assert_eq!(s.saved[1], 17);
    assert_eq!(s.current[1], 0);
    assert_eq!(s.current[2], 17);
    for _ in 0..115 {
        s.second_passed();
    }
    assert_eq!(s.uptime, 120);
    assert_eq!(s.saved[5], 17);
    assert_eq!(s.saved[6], 0);
    let f = s.figures(3);
    assert_eq!((f.uptime, f.players, f.mspt), (120, 3, 0));
    assert_eq!(f.tps, 30);
}
