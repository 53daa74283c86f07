use reify::draw::{
    CommandReader, CommandWriter, Draw, DRAW_ALL, DRAW_INSTANCE_BASE, DRAW_INSTANCE_COUNT,
    DRAW_VERTEX_BASE, DRAW_VERTEX_COUNT,
};
use reify::Error;

// Verifies that draw state parameters are written and read in the same order.
#[test]
fn read_write_order() {
    let mut buf = Vec::new();

    let mut w = CommandWriter::new(&mut buf);
    w.draw(0, 1, 2, 3);
    drop(w);

    let mut r = CommandReader::new(&buf);
    let draw = r.next().expect("no draw command").expect("error in draw stream");

    assert_eq!(draw, Draw { instance_base: 0, instance_count: 1, vertex_base: 2, vertex_count: 3 });
}

#[test]
fn first_draw_is_written_in_full() {
    let mut buf = Vec::new();
    let mut w = CommandWriter::new(&mut buf);
    w.draw(10, 11, 12, 13);
    drop(w);
    // Flags, then instance count, instance base, vertex count, vertex base.
    assert_eq!(buf, vec![DRAW_ALL, 11, 10, 13, 12]);
    assert_eq!(DRAW_ALL, DRAW_INSTANCE_BASE | DRAW_INSTANCE_COUNT | DRAW_VERTEX_BASE | DRAW_VERTEX_COUNT);
}

#[test]
fn later_draws_write_what_changed() {
    let mut buf = Vec::new();
    let mut w = CommandWriter::new(&mut buf);
    w.draw(0, 1, 0, 3);
    w.draw(0, 1, 0, 3);
    w.draw(0, 1, 6, 3);
    w.draw(5, 2, 6, 9);
    drop(w);
    assert_eq!(
        buf,
        vec![
            DRAW_ALL, 1, 0, 3, 0,
            0,
            DRAW_VERTEX_BASE, 6,
            DRAW_INSTANCE_BASE | DRAW_INSTANCE_COUNT | DRAW_VERTEX_COUNT, 2, 5, 9,
        ]
    );
    let mut r = CommandReader::new(&buf);
    let mut draws = Vec::new();
    while let Some(draw) = r.next() {
        draws.push(draw.unwrap());
    }
    assert_eq!(
        draws,
        vec![
            Draw { instance_base: 0, instance_count: 1, vertex_base: 0, vertex_count: 3 },
            Draw { instance_base: 0, instance_count: 1, vertex_base: 0, vertex_count: 3 },
            Draw { instance_base: 0, instance_count: 1, vertex_base: 6, vertex_count: 3 },
            Draw { instance_base: 5, instance_count: 2, vertex_base: 6, vertex_count: 9 },
        ]
    );
    assert!(r.next().is_none());
}

#[test]
fn writer_appends_to_what_the_buffer_holds() {
    let mut buf = vec![42];
    let mut w = CommandWriter::new(&mut buf);
    w.draw(0, 1, 0, 0);
    drop(w);
    assert_eq!(buf, vec![42, DRAW_ALL, 1, 0, 0, 0]);
}

#[test]
fn reader_starts_from_the_default_draw() {
    assert_eq!(Draw::default(), Draw { instance_base: 0, instance_count: 1, vertex_base: 0, vertex_count: 0 });
    let buf = vec![0u32];
    let mut r = CommandReader::new(&buf);
    assert_eq!(r.next(), Some(Ok(Draw::default())));
    assert_eq!(r.next(), None);
    let empty: Vec<u32> = Vec::new();
    assert_eq!(CommandReader::new(&empty).next(), None);
}

#[test]
fn reader_ignores_unknown_flags_and_reports_truncation() {
    let buf = vec![DRAW_VERTEX_COUNT | 0x1, 7];
    let mut r = CommandReader::new(&buf);
    assert_eq!(
        r.next(),
        Some(Ok(Draw { instance_base: 0, instance_count: 1, vertex_base: 0, vertex_count: 7 }))
    );
    let cut = vec![DRAW_VERTEX_COUNT | DRAW_VERTEX_BASE, 7];
    let mut r = CommandReader::new(&cut);
    assert_eq!(r.next(), Some(Err(Error::Bug)));
    let cut = vec![DRAW_INSTANCE_COUNT];
    assert_eq!(CommandReader::new(&cut).next(), Some(Err(Error::Bug)));
}

#[test]
fn finished_writer_gives_the_buffer_back() {
    let mut buf = vec![7];
    let mut w = CommandWriter::new(&mut buf);
    w.draw(1, 2, 3, 4);
    w.draw(1, 2, 3, 5);
    w.finish();
    // What the buffer held, then the two draws.
    assert_eq!(buf, vec![7, DRAW_ALL, 2, 1, 4, 3, DRAW_VERTEX_COUNT, 5]);

    let draws = [(0, 1, 0, 0), (9, 9, 9, 9), (9, 8, 9, 9), (0, 1, 0, 0), (0, 1, 0, 0)];
    let mut words = Vec::new();
    let mut w = CommandWriter::new(&mut words);
    for (instance_base, instance_count, vertex_base, vertex_count) in draws {
        w.draw(instance_base, instance_count, vertex_base, vertex_count);
    }
    w.finish();
    let mut r = CommandReader::new(&words);
    for (instance_base, instance_count, vertex_base, vertex_count) in draws {
        assert_eq!(r.next(), Some(Ok(Draw { instance_base, instance_count, vertex_base, vertex_count })));
    }
    assert_eq!(r.next(), None);
}
