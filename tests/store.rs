use louisbot::collect::{collect_from, Collector};
use louisbot::color::{color_text, hexcolor_to_rgb, ColorConfig, ColorError};
use louisbot::cursor::BatchCache;
use louisbot::database::{DbError, ServerDatabase, ServerFiles};
use louisbot::day::{generate_empty_hours, Day, HistogramError};
use louisbot::epoch::{epoch_to_unix, EpochClock, hour_of_day, now_louis_epoch, unix_to_epoch, year_of, year_of_day, REFERENCE_SECS};
use louisbot::shard::{Meta, ServerFile, ShardError, UserUpdate};
use louisbot::user::User;

const MAY_15_2025_14H: i64 = 1747317600;

fn update(id: u64, name: &str, messages: u64, reactions: Vec<(&str, u64)>, timestamp: i64) -> UserUpdate {
    UserUpdate {
        id,
        name: name.to_string(),
        messages,
        reactions: reactions.into_iter().map(|(n, c)| (n.to_string(), c)).collect(),
        timestamp,
    }
}

fn secs_of_day(day: u64, hour: i64) -> i64 {
    epoch_to_unix(day) as i64 + hour * 3600
}

fn user_with_day(id: u64, name: &str, day: u64, hour: usize, count: u64) -> User {
    let mut u = User::new(id, name);
    u.update_message_count(day, hour, count).unwrap();
    u
}

#[test]
fn increment_changes_only_its_bucket() {
    let mut d = Day::new(0);
    d.increment(7, 2).unwrap();
    d.increment(14, 5).unwrap();
    d.increment(14, 1).unwrap();
    let h = d.msg_hours();
    for (i, v) in h.iter().enumerate() {
        let expected = match i {
            7 => 2,
            14 => 6,
            _ => 0,
        };
        assert_eq!(*v, expected);
    }
}

#[test]
fn increment_rejects_hour_24() {
    let mut d = Day::new(0);
    assert_eq!(d.increment(24, 1), Err(HistogramError::HourOutOfRange));
    assert_eq!(d.increment(23, 1), Ok(()));
    assert_eq!(d.total(), 1);
}

#[test]
fn increment_reports_overflow() {
    let mut d = Day::new(0);
    d.increment(0, u64::MAX).unwrap();
    assert_eq!(d.increment(0, 1), Err(HistogramError::CountOverflow));
    assert_eq!(d.msg_hours()[0], u64::MAX);
}

#[test]
fn total_is_sum_of_buckets() {
    let mut d = Day::new(0);
    let mut expected: u128 = 0;
    for h in 0..24usize {
        d.increment(h, (h as u64) * 3 + 1).unwrap();
        expected += (h as u128) * 3 + 1;
    }
    d.increment(5, 10).unwrap();
    expected += 10;
    assert_eq!(d.total(), expected);
    assert_eq!(d.total(), d.msg_hours().iter().map(|x| *x as u128).sum::<u128>());
}

#[test]
fn total_of_large_buckets_does_not_wrap() {
    let mut d = Day::new(0);
    d.increment(0, u64::MAX).unwrap();
    d.increment(1, u64::MAX).unwrap();
    assert_eq!(d.total(), 2 * (u64::MAX as u128));
}

#[test]
fn reaction_counts() {
    let mut d = Day::new(0);
    assert_eq!(d.total_reactions_of("wave"), 0);
    d.increment_reaction("wave", 3, 2).unwrap();
    d.increment_reaction("wave", 3, 2).unwrap();
    d.increment_reaction("wave", 9, 1).unwrap();
    d.increment_reaction("fire", 0, 7).unwrap();
    assert_eq!(d.total_reactions_of("wave"), 5);
    assert_eq!(d.total_reactions_of("fire"), 7);
    assert_eq!(d.total_reactions_of("ghost"), 0);
    assert_eq!(d.get_reaction("wave")[3], 4);
    assert_eq!(d.get_reaction("ghost"), [0u64; 24]);
    assert_eq!(d.increment_reaction("wave", 24, 1), Err(HistogramError::HourOutOfRange));
    assert_eq!(d.total(), 0);
}

#[test]
fn empty_hours_are_zero() {
    assert_eq!(generate_empty_hours(), [0u64; 24]);
}

#[test]
fn epoch_round_trip() {
    for e in [0u64, 1, 2, 365, 1000, 100_000] {
        assert_eq!(unix_to_epoch(epoch_to_unix(e) as i64), e);
    }
}

#[test]
fn epoch_conversions() {
    assert_eq!(REFERENCE_SECS, 1747180800);
    assert_eq!(epoch_to_unix(0), 1747180800);
    assert_eq!(epoch_to_unix(1), 1747267200);
    assert_eq!(unix_to_epoch(MAY_15_2025_14H), 1);
    assert_eq!(unix_to_epoch(1747267199), 0);
    assert_eq!(unix_to_epoch(0), 0);
    assert_eq!(unix_to_epoch(-5), 0);
    assert_eq!(hour_of_day(MAY_15_2025_14H), 14);
    assert_eq!(hour_of_day(-1), 23);
    assert!(now_louis_epoch() > 0);
}

#[test]
fn calendar_years() {
    assert_eq!(year_of(0), Some(1970));
    assert_eq!(year_of(MAY_15_2025_14H), Some(2025));
    assert_eq!(year_of(1767225600), Some(2026));
    assert_eq!(year_of(1767225599), Some(2025));
    assert_eq!(year_of_day(0), Some(2025));
    assert_eq!(year_of_day(300), Some(2026));
}

#[test]
fn combine_outside_range_takes_other() {
    let a = user_with_day(1, "A", 5, 0, 3);
    let b = user_with_day(1, "B", 5, 0, 7);
    let c = a.combine(&b, Some(10), Some(20));
    assert_eq!(c.get_day(5).unwrap().total(), 7);
    assert_eq!(c.name(), "A");
}

#[test]
fn combine_inside_range_keeps_own() {
    let mut a = user_with_day(1, "A", 12, 0, 3);
    a.update_message_count(20, 1, 4).unwrap();
    let mut b = user_with_day(1, "B", 12, 0, 7);
    b.update_message_count(20, 1, 9).unwrap();
    b.update_message_count(15, 2, 1).unwrap();
    let c = a.combine(&b, Some(10), Some(20));
    assert_eq!(c.get_day(12).unwrap().total(), 3);
    assert_eq!(c.get_day(20).unwrap().total(), 4);
    assert_eq!(c.get_day(15).unwrap().total(), 1);
    let open = a.combine(&b, None, None);
    assert_eq!(open.get_day(12).unwrap().total(), 3);
}

#[test]
fn filter_keeps_days_in_bounds() {
    let mut u = User::new(3, "C");
    for day in [1u64, 10, 15, 20, 21] {
        u.update_message_count(day, 0, day).unwrap();
    }
    let f = u.filter(Some(10), Some(20));
    assert!(f.get_day(1).is_none());
    assert!(f.get_day(21).is_none());
    assert_eq!(f.sum(), Some(45));
    assert_eq!(u.filter(None, Some(10)).sum(), Some(11));
    assert_eq!(u.filter(Some(20), None).sum(), Some(41));
}

#[test]
fn user_sums() {
    let mut u = User::new(4, "D");
    u.update_message_count(1, 2, 5).unwrap();
    u.update_message_count(2, 3, 6).unwrap();
    u.update_reaction_count(1, 2, "wave", 3).unwrap();
    u.update_reaction_count(2, 2, "wave", 4).unwrap();
    u.update_reaction_count(2, 2, "fire", 1).unwrap();
    assert_eq!(u.sum(), Some(11));
    assert_eq!(u.sum_reactions("wave"), Some(7));
    assert_eq!(u.sum_reactions("none"), Some(0));
    assert_eq!(u.update_message_count(1, 30, 1), Err(HistogramError::HourOutOfRange));
    assert_eq!(u.sum(), Some(11));
}

#[test]
fn apply_record_is_all_or_nothing() {
    let mut s = ServerFile::assemble("p", Meta::new(1, 1), vec![], false);
    s.apply_update(&update(9, "Z", 0, vec![("x", u64::MAX)], MAY_15_2025_14H)).unwrap();
    let r = s.apply_update(&update(9, "Z", 4, vec![("x", 1)], MAY_15_2025_14H));
    assert_eq!(r, Err(HistogramError::CountOverflow));
    assert_eq!(s.get_user(9).unwrap().sum(), Some(0));
}

#[test]
fn shard_bounds_widen() {
    let mut s = ServerFile::assemble("p", Meta::new(10, 10), vec![], false);
    s.update_message_count(1, "A", secs_of_day(4, 3), 1).unwrap();
    s.update_reaction_count(1, "A", secs_of_day(30, 3), "wave", 1).unwrap();
    assert_eq!(s.meta(), Meta::new(4, 30));
    s.update_last_day(40);
    assert_eq!(s.meta().last_day, 40);
    assert_eq!(s.get_all_users().len(), 1);
}

#[test]
fn shard_read_only_refuses_write() {
    let s = ServerFile::assemble("p", Meta::new(0, 0), vec!["wave".to_string()], true);
    assert_eq!(s.ensure_writable(), Err(ShardError::ReadOnly));
    let w = ServerFile::new("p");
    assert_eq!(w.ensure_writable(), Ok(()));
    assert_eq!(s.get_all_reactions().len(), 1);
}

#[test]
fn shard_paths() {
    assert_eq!(ServerFile::file_name("guild", "2025"), "guild_2025.json");
    assert_eq!(ServerFile::file_path("guild", "2025"), "guild/guild_2025.json");
    let files = ServerFiles::new("data", "guild");
    assert_eq!(files.shard_path(2025), "data/guild/guild_2025.json");
    assert_eq!(files.shard_path(7), "data/guild/guild_7.json");
}

#[test]
fn database_paths() {
    let db = ServerDatabase::new("data/guild").unwrap();
    assert_eq!(db.files().server_name(), "guild");
    assert_eq!(db.files().shard_path(2025), "data/guild/guild_2025.json");
    assert!(matches!(ServerDatabase::new("/"), Err(DbError::NoParent)));
}

#[test]
fn ingest_one_message_end_to_end() {
    let mut db = ServerDatabase::new("data/community").unwrap();
    let path = db.files().shard_path(2025);
    db.take_in(2025, ServerFile::new(&path));
    let batch = vec![update(42, "Alice", 1, vec![], MAY_15_2025_14H)];
    assert_eq!(db.update_users(&batch), Ok(()));
    let shard = db.files().get(2025).unwrap();
    let user = shard.get_user(42).unwrap();
    assert_eq!(user.name(), "Alice");
    let day = user.get_day(1).unwrap();
    let hours = day.msg_hours();
    for (i, v) in hours.iter().enumerate() {
        assert_eq!(*v, if i == 14 { 1 } else { 0 });
    }
    assert_eq!(shard.meta().first_day, 1);
}

#[test]
fn update_users_needs_resident_shard() {
    let mut db = ServerDatabase::new("data/community").unwrap();
    let batch = vec![update(42, "Alice", 1, vec![("wave", 2)], MAY_15_2025_14H)];
    assert_eq!(db.update_users(&batch), Err(DbError::ShardNotLoaded(2025)));
    db.take_in(2025, ServerFile::new("x"));
    assert_eq!(db.update_users(&batch), Ok(()));
    let u = db.files().get(2025).unwrap().get_user(42).unwrap();
    assert_eq!(u.sum_reactions("wave"), Some(2));
}

#[test]
fn update_users_routes_by_year() {
    let mut db = ServerDatabase::new("d/c").unwrap();
    db.take_in(2025, ServerFile::new("a"));
    db.take_in(2026, ServerFile::new("b"));
    let batch = vec![
        update(1, "A", 2, vec![], secs_of_day(100, 1)),
        update(1, "A", 3, vec![], secs_of_day(300, 1)),
        update(2, "B", 1, vec![], secs_of_day(301, 5)),
    ];
    assert_eq!(db.update_users(&batch), Ok(()));
    let s25 = db.files().get(2025).unwrap();
    let s26 = db.files().get(2026).unwrap();
    assert_eq!(s25.get_user(1).unwrap().sum(), Some(2));
    assert_eq!(s26.get_user(1).unwrap().sum(), Some(3));
    assert!(s25.get_user(2).is_none());
    assert_eq!(s26.get_user(2).unwrap().get_day(301).unwrap().msg_hours()[5], 1);
}

#[test]
fn take_in_keeps_resident_shard() {
    let mut files = ServerFiles::new("d", "c");
    let mut s = ServerFile::assemble("first", Meta::new(0, 0), vec![], false);
    s.update_message_count(1, "A", MAY_15_2025_14H, 1).unwrap();
    files.take_in(2025, s);
    files.take_in(2025, ServerFile::assemble("second", Meta::new(0, 0), vec![], false));
    assert_eq!(files.get(2025).unwrap().path(), "first");
    let mut copy = files.open_owned_copy(2025).unwrap();
    copy.update_message_count(2, "B", MAY_15_2025_14H, 1).unwrap();
    assert!(files.get(2025).unwrap().get_user(2).is_none());
    assert!(files.is_resident(2025));
    assert!(!files.is_resident(2024));
}

fn shard_with(meta: Meta, entries: &[(u64, &str, u64, u64)]) -> ServerFile {
    let mut s = ServerFile::assemble("s", meta, vec![], false);
    for (id, name, day, count) in entries {
        s.update_message_count(*id, name, secs_of_day(*day, 0), *count).unwrap();
    }
    s
}

#[test]
fn collect_in_one_shard_drops_days_outside() {
    let mut db = ServerDatabase::new("d/c").unwrap();
    db.take_in(2025, shard_with(Meta::new(5, 5), &[(1, "A", 5, 1), (1, "A", 12, 2), (1, "A", 25, 4), (2, "B", 30, 1)]));
    let users = db.collect_data(10, 20).unwrap();
    assert_eq!(users.len(), 2);
    let a = users.iter().find(|u| u.id() == 1).unwrap();
    assert_eq!(a.sum(), Some(2));
    assert!(a.get_day(5).is_none());
    let b = users.iter().find(|u| u.id() == 2).unwrap();
    assert_eq!(b.sum(), Some(0));
}

#[test]
fn collect_across_years() {
    let mut db = ServerDatabase::new("d/c").unwrap();
    db.take_in(2026, shard_with(Meta::new(300, 300), &[(1, "A", 300, 3), (3, "C", 310, 1)]));
    db.take_in(2025, shard_with(Meta::new(200, 200), &[(1, "A", 200, 5), (2, "B", 210, 2)]));
    assert_eq!(db.collect_data(150, 320).err(), Some(DbError::ShardNotLoaded(2024)));
    db.take_in(2024, ServerFile::assemble("s", Meta::new(100, 160), vec![], false));
    let users = db.collect_data(150, 320).unwrap();
    assert_eq!(users.len(), 3);
    let a = users.iter().find(|u| u.id() == 1).unwrap();
    assert_eq!(a.sum(), Some(8));
    assert_eq!(users.iter().find(|u| u.id() == 2).unwrap().sum(), Some(2));
    assert_eq!(users.iter().find(|u| u.id() == 3).unwrap().sum(), Some(1));
}

#[test]
fn collect_skips_shard_outside_range() {
    let mut db = ServerDatabase::new("d/c").unwrap();
    db.take_in(2026, shard_with(Meta::new(300, 300), &[(1, "A", 300, 3)]));
    db.take_in(2025, shard_with(Meta::new(10, 10), &[(2, "B", 12, 2)]));
    let direct = db.collect_data(10, 20).unwrap();
    assert_eq!(direct.len(), 1);
    assert_eq!(direct[0].id(), 2);
    let mut c = Collector::new(10, 20, 2026);
    c.absorb(db.files().get(2026).unwrap());
    assert_eq!(c.next_year(), Some(2025));
    c.absorb(db.files().get(2025).unwrap());
    assert_eq!(c.next_year(), None);
    let users = c.finish();
    assert_eq!(users.len(), 1);
    assert_eq!(users[0].id(), 2);
}

#[test]
fn collector_stops_at_year_zero() {
    let mut c = Collector::new(10, 20, 0);
    c.absorb(&ServerFile::assemble("s", Meta::new(50, 60), vec![], false));
    assert_eq!(c.next_year(), None);
    assert!(c.finish().is_empty());
}

#[test]
fn set_pointer_inserts_new_channel() {
    let mut cache = BatchCache::new("cursors.json");
    assert_eq!(cache.get_pointer(1, 2), None);
    cache.log_pointer(1, 2, 1.5f64.to_bits());
    assert_eq!(cache.get_pointer(1, 2).map(f64::from_bits), Some(1.5));
    cache.log_pointer(1, 2, 2.5f64.to_bits());
    cache.log_pointer(1, 3, 9.0f64.to_bits());
    assert_eq!(cache.get_pointer(1, 2).map(f64::from_bits), Some(2.5));
    assert_eq!(cache.entries().len(), 2);
    cache.clear();
    assert_eq!(cache.get_pointer(1, 3), None);
    assert_eq!(cache.path(), "cursors.json");
}

#[test]
fn hex_colors_parse() {
    assert_eq!(hexcolor_to_rgb("#ff8000"), Ok((255, 128, 0)));
    assert_eq!(hexcolor_to_rgb("0A0b0C"), Ok((10, 11, 12)));
    assert_eq!(hexcolor_to_rgb("ff80"), Err(ColorError::BadLength));
    assert_eq!(hexcolor_to_rgb("##ff8000"), Err(ColorError::BadLength));
    assert_eq!(hexcolor_to_rgb("gg0000"), Err(ColorError::BadDigit));
    assert_eq!(hexcolor_to_rgb(""), Err(ColorError::BadLength));
}

#[test]
fn colors_format_as_six_hex_digits() {
    assert_eq!(color_text(0x33aa00), "33aa00");
    assert_eq!(color_text(0), "000000");
    assert_eq!(color_text(0xdddddc), "dddddc");
}

#[test]
fn color_table() {
    let mut cfg = ColorConfig::new("data");
    assert_eq!(cfg.path(), "data/colors.json");
    assert_eq!(cfg.get_color(1), None);
    cfg.set_color(1, "ff0000");
    cfg.set_color(1, "00ff00");
    assert_eq!(cfg.get_color(1).map(|s| s.as_str()), Some("00ff00"));
    assert_eq!(cfg.color_or(2, 0x123456), "123456");
    let users = vec![User::new(1, "A"), User::new(2, "B")];
    let colors = cfg.get_colors(&users);
    assert_eq!(colors[0], (1, "00ff00".to_string()));
    assert_eq!(colors[1].0, 2);
    let v = u32::from_str_radix(&colors[1].1, 16).unwrap();
    assert_eq!(colors[1].1.len(), 6);
    assert!((0x333333..0xdddddd).contains(&v));
}

#[test]
fn meta_constructors() {
    assert_eq!(Meta::new(3, 9), Meta { first_day: 3, last_day: 9 });
    let m = Meta::new_now();
    assert_eq!(m.first_day, m.last_day);
    assert_eq!(m.first_day, now_louis_epoch());
}

#[test]
fn epoch_clock_with_other_reference() {
    let clock = EpochClock::new(0);
    assert_eq!(clock.epoch_to_unix(2), 172800);
    assert_eq!(clock.unix_to_epoch(172799), 1);
    assert_eq!(clock.unix_to_epoch(-1), 0);
    for e in [0u64, 3, 20000] {
        assert_eq!(clock.unix_to_epoch(clock.epoch_to_unix(e) as i64), e);
    }
    assert_eq!(EpochClock::standard().reference, REFERENCE_SECS);
}

#[test]
fn day_constructors() {
    let d = Day::new_with_epoch(1);
    assert_eq!(d.date(), 1747267200);
    assert_eq!(d.total(), 0);
    assert_eq!(Day::new_from_timeof(2).date(), 1747353600);
    let now = Day::new_now();
    assert!(now.date() > 1747180800);
    assert_eq!(now.msg_hours(), [0u64; 24]);
}

#[test]
fn update_last_day_now_moves_last_day() {
    let mut s = ServerFile::assemble("p", Meta::new(0, 0), vec![], false);
    s.update_last_day_now();
    assert_eq!(s.meta().last_day, now_louis_epoch());
    assert_eq!(s.meta().first_day, 0);
}

#[test]
fn unrepresentable_years_are_errors() {
    let mut db = ServerDatabase::new("d/c").unwrap();
    let batch = vec![update(1, "A", 1, vec![], i64::MAX)];
    assert_eq!(db.update_users(&batch), Err(DbError::YearOutOfRange));
    assert_eq!(db.collect_data(0, u64::MAX).err(), Some(DbError::YearOutOfRange));
    assert_eq!(year_of(i64::MAX), None);
}

#[test]
fn database_path_without_base_name() {
    assert!(matches!(ServerDatabase::new("a/.."), Err(DbError::NoBaseName)));
}

#[test]
fn apply_batch_with_given_years() {
    let mut db = ServerDatabase::new("d/c").unwrap();
    db.take_in(2025, ServerFile::new("a"));
    let batch = vec![
        update(1, "A", 2, vec![], MAY_15_2025_14H),
        update(2, "B", 1, vec![], MAY_15_2025_14H),
        update(3, "C", 1, vec![], MAY_15_2025_14H),
    ];
    assert_eq!(db.apply_batch(&batch, &vec![Some(2025), None, Some(2025)]), Err(DbError::YearOutOfRange));
    let s = db.files().get(2025).unwrap();
    assert_eq!(s.get_user(1).unwrap().sum(), Some(2));
    assert!(s.get_user(2).is_none());
    assert!(s.get_user(3).is_none());
    assert_eq!(db.apply_batch(&batch, &vec![Some(2025), Some(-1), None]), Err(DbError::YearOutOfRange));
    assert_eq!(db.apply_batch(&batch, &vec![Some(2030), None, None]), Err(DbError::ShardNotLoaded(2030)));
}

#[test]
fn collect_from_given_year() {
    let mut files = ServerFiles::new("d", "c");
    files.take_in(7, shard_with(Meta::new(10, 10), &[(1, "A", 15, 2)]));
    let users = collect_from(&files, 10, 20, 7).unwrap();
    assert_eq!(users.len(), 1);
    assert_eq!(users[0].sum(), Some(2));
    assert_eq!(collect_from(&files, 10, 20, 8).err(), Some(DbError::ShardNotLoaded(8)));
}

#[test]
fn update_last_day_only_extends() {
    let mut s = ServerFile::assemble("p", Meta::new(5, 30), vec![], false);
    s.update_last_day(20);
    assert_eq!(s.meta(), Meta::new(5, 30));
    s.update_last_day(31);
    assert_eq!(s.meta(), Meta::new(5, 31));
}

#[test]
fn database_without_directory_keeps_relative_paths() {
    let db = ServerDatabase::new("guild").unwrap();
    assert_eq!(db.path(), "guild");
    assert_eq!(db.files().shard_path(2025), "guild/guild_2025.json");
}
