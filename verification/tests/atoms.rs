use blog_app::atoms::client_grid::{label_ink, ring_ink, spread, Client};
use blog_app::atoms::client_strip::{ink, ink_frame};
use blog_app::atoms::code::{highlight, token_style, token_text, Code};
use blog_app::atoms::controls::{hide_unless, invite, run_label, HeadingLevel};
use blog_app::atoms::cut::{at_rest, cut_label, ink_of, ramp, PhaseRow};
use blog_app::atoms::latency_table::{
    box_at, median, p50, pct, scaled, shares, whisker as table_whisker, Bar, Edge,
};
use blog_app::atoms::legend::{swatch, Key};
use blog_app::atoms::server_box::{
    group, line_blame, line_drop, line_queues, line_swatch, pips, server_name, TenantLine, PIPS,
};
use blog_app::atoms::slider::{fmt_qps, grab_of, inks, pill, Name, Scale, GRAB, RAIL_FILL};
use blog_app::atoms::stage::{painted, Paint};
use blog_app::atoms::strips::{latest, points, row, slot_x, stroke_of, y_of};
use blog_app::atoms::tenant_stage::{dot_ring, outbound, reply, TenantDot, Wire};
use blog_app::atoms::toggle::{Knob, Selected, Tone};
use blog_app::atoms::waterfall::{
    against, gain, placed, reading, segment, share, total_reading, trip_bar, whisker, Against, Leg,
};
use blog_app::engine::readers::TenantQueues;
use blog_app::engine::{Part, MS};

fn joined(src: &str) -> String {
    highlight(src).iter().map(token_text).collect()
}

/// The words and punctuation of a line are coloured apart, and put together they are the line.
#[test]
fn a_highlighted_listing_reads_as_its_source() {
    let src = "let x = Foo::new(12);\n    // wait_here\nfn é_1() { bar }";
    assert_eq!(joined(src), src);
    assert_eq!(joined("one"), "one");
    assert_eq!(joined("let x;\n"), "let x;\n", "a last line keeps its end");
    assert_eq!(joined("one\r\ntwo // no\r\n\n"), "one\r\ntwo // no\r\n\n");
    let breaks = highlight("A\r\nb");
    let runs: Vec<(&str, Code)> = breaks.iter().map(|t| (token_text(t), t.style)).collect();
    assert_eq!(
        runs,
        vec![
            ("A", Code::Literal),
            ("\r", Code::Text),
            ("\n", Code::Text),
            ("b", Code::Text),
        ],
        "and a break is plain"
    );
    assert_eq!(joined(""), "");
}

#[test]
fn a_word_is_coloured_by_what_it_is() {
    let tokens = highlight("Queue(MAX_10) // slow");
    let of = |text: &str| {
        tokens
            .iter()
            .find(|t| t.text == text)
            .map(|t| t.style)
    };
    assert_eq!(of("Queue"), Some(Code::Name));
    assert_eq!(of("MAX_10"), Some(Code::Literal));
    assert_eq!(tokens.iter().filter(|t| t.style == Code::Comment).count(), 1);
    for (i, t) in tokens.iter().enumerate() {
        assert_eq!(t.i, i, "each run knows its place");
    }
    let name = tokens.iter().find(|t| t.text == "Queue").unwrap();
    assert_eq!(token_style(name), "color:var(--code-name)");
}

/// A letter of any script is part of a word, and a word of one script is not cut by an accent.
#[test]
fn a_word_is_letters_of_any_script() {
    let tokens = highlight("(Aéb)");
    assert!(tokens.iter().any(|t| t.text == "Aéb" && t.style == Code::Name));
    let split = highlight("A·B");
    assert!(split.iter().any(|t| t.text == "A"), "a dot is not a letter");
}

#[test]
fn the_ramp_warms_with_the_percentile() {
    assert_eq!(ramp(1), "rgb(122 154 94)");
    assert_eq!(ramp(50), "rgb(122 154 94)");
    assert_eq!(ramp(70), "rgb(170 128 66)");
    assert_eq!(ramp(90), "rgb(218 102 38)");
    assert_eq!(ramp(100), "rgb(220 55 66)");
    assert!(ink_of(90).ends_with("rgb(218 102 38)"));
    assert!(cut_label(95).contains("95"));
}

fn leg(ms: Option<u64>) -> Leg {
    Leg {
        label: "work",
        ms: ms.map(|v| v * MS),
        give: None,
        against: None,
        ink: Paint::Blue,
    }
}

#[test]
fn an_unread_row_has_nothing_on_it() {
    let legs = at_rest(&vec![PhaseRow {
        label: "queue",
        ink: Paint::Amber,
        waiting: true,
    }]);
    assert_eq!(legs.len(), 1);
    assert!(legs[0].ms.is_none() && legs[0].label == "queue");
}

#[test]
fn legs_lie_end_to_end() {
    let rows = placed(&vec![leg(Some(10)), leg(Some(30)), leg(None)], 80 * MS);
    assert_eq!(rows[1].at, 10 * MS as u128);
    assert_eq!(rows[2].at, 40 * MS as u128);
    assert_eq!(rows[0].trip, 40 * MS as u128);
    assert_eq!(reading(&rows[1]), "30 ms");
    assert_eq!(reading(&rows[2]), "– ms");
    assert_eq!(
        segment(&rows[1]),
        "left:12.50%;width:37.50%;background:var(--stage-blue)"
    );
    assert_eq!(whisker(&rows[1]), "display:none", "no give, no whisker");
    assert!(share(&rows[1]).contains("75.00%"), "{}", share(&rows[1]));
    assert!(trip_bar(&rows).contains("50.00%"), "{}", trip_bar(&rows));
    assert_eq!(trip_bar(&Vec::new()), "width:0");
    assert_eq!(total_reading(40 * MS), "40 ms");
    assert_eq!(total_reading(0), "– ms");
}

#[test]
fn a_leg_reads_against_its_baseline() {
    let mut rows = placed(&vec![leg(Some(10))], 80 * MS);
    let row = &mut rows[0];
    assert_eq!(against(row), "");
    row.leg.against = Some(Against::Baseline);
    assert_eq!(against(row), "baseline");
    row.leg.against = Some(Against::By { more: -1, of: 8 });
    assert_eq!(against(row), "-12%", "a tie goes to the even one");
    assert_eq!(gain(row), "color:var(--stage-green)");
    row.leg.against = Some(Against::By { more: 3, of: 8 });
    assert_eq!(against(row), "+38%");
    assert_eq!(gain(row), "");
}

fn bar(pct: Option<u32>) -> Bar {
    Bar {
        label: "queue",
        p25: 10 * MS,
        p50: 20 * MS + MS / 2,
        p95: 60 * MS,
        pct,
        hue: Paint::Purple,
        total: false,
    }
}

#[test]
fn a_boxplot_row_is_drawn_on_the_shared_axis() {
    let rows = scaled(&vec![bar(Some(40))], 80 * MS);
    let r = &rows[0];
    assert_eq!(p50(r), "21 ms", "a half goes up");
    assert_eq!(pct(r), "40%");
    assert_eq!(
        box_at(r),
        "background:var(--stage-purple);left:12.50%;width:62.50%"
    );
    assert_eq!(table_whisker(r, Edge::P25), "left:12.50%");
    assert_eq!(table_whisker(r, Edge::P95), "left:75.00%");
    assert!(median(r).starts_with("background:var(--stage-purple);left:25.6"));
    assert_eq!(scaled(&vec![bar(None)], 0)[0].axis, MS, "an axis is never nothing");
    assert!(shares(&vec![bar(None), bar(Some(1))]));
    assert!(!shares(&vec![bar(None)]));
    assert_eq!(pct(&scaled(&vec![bar(None)], MS)[0]), "");
    let mut turned = bar(None);
    turned.p95 = MS;
    assert!(box_at(&scaled(&vec![turned], 80 * MS)[0]).ends_with("width:0.00%"));
}

#[test]
fn a_knob_stands_where_it_last_was() {
    let tones = vec![Tone::Normal, Tone::Shed, Tone::Serve];
    let mut knob = Knob::new();
    assert_eq!(
        knob.style(&vec![false, true, false], &tones),
        "--knob-at:1;--knob-n:3;background-color:var(--palette-wash-shed);opacity:1"
    );
    assert_eq!(
        knob.style(&vec![false, false, false], &tones),
        "--knob-at:1;--knob-n:3;background-color:var(--palette-wash-shed);opacity:0"
    );
    assert_eq!(
        knob.style(&Vec::new(), &Vec::new()),
        "--knob-at:1;--knob-n:1;background-color:var(--palette-wash);opacity:0"
    );
    assert_eq!(Tone::Alarm.wash(), "--palette-wash");
    assert_eq!(Tone::Alarm.selected(), Selected::Alarm);
    assert_eq!(Tone::Serve.selected(), Selected::OnServe);
}

#[test]
fn a_pip_lights_for_a_busy_core_and_no_other() {
    let drawn = pips(3, &vec![Paint::Teal, Paint::Amber]);
    assert_eq!(drawn.len(), PIPS);
    let inks: Vec<&str> = drawn.iter().map(|p| p.ink.as_str()).collect();
    assert_eq!(inks[0], "background:var(--stage-teal)");
    assert_eq!(inks[1], "background:var(--stage-amber)");
    assert_eq!(inks[2], "background:var(--stage-blue)", "a short key still lights");
    assert!(inks[3..].iter().all(|i| i.is_empty()));
}

#[test]
fn a_tenants_line_reads_its_queues() {
    let line = TenantLine {
        name: "a",
        tint: Paint::Salmon,
        queues: TenantQueues {
            tcp: 1,
            app: 20,
            run: 3,
        },
        blame: 12 * MS + MS / 2,
        dropped: Part { done: 1, of: 8 },
    };
    assert_eq!(line_swatch(&line), "background:var(--stage-salmon)");
    assert_eq!(line_queues(&line), "1 tcp  20 app  3 run");
    assert_eq!(line_blame(&line), "12 ms");
    assert_eq!(line_drop(&line), "12%");
    assert_eq!(server_name(0), "web-01");
    assert_eq!(server_name(9), "web-10");
    assert_eq!(group(1234567), "1 234 567".replace(' ', "\u{2009}"));
}

#[test]
fn a_value_fills_its_rail() {
    let scale = Scale::new(0, 200, 5);
    assert_eq!(scale.along(50), (50, 200));
    assert_eq!(scale.fill(50, "red"), "width:25.00%;background:red");
    assert_eq!(scale.fill(500, "red"), "width:100.00%;background:red");
    assert_eq!(fmt_qps(75), "75/s");
    assert_eq!(Name::new("qps", 4).width, 4);
}

#[test]
fn a_strip_stands_on_its_axis() {
    assert_eq!(slot_x(0), 0);
    assert_eq!(slot_x(119), 6000);
    assert!(y_of(0, 10, 1) > y_of(10, 10, 1), "a greater reading stands higher");
    assert_eq!(y_of(20, 10, 1), y_of(10, 10, 1), "and never off the strip");
    let r = row("p50", &vec![0, 5, 10], 10, 1, " ms", "red".to_string());
    assert_eq!(r.reading, "10 ms");
    assert_eq!(r.points.split(' ').count(), 3);
    assert_eq!(stroke_of(&r), "stroke:red");
    assert_eq!(points(&Vec::new(), 10, 1), "");
    assert_eq!(latest(&Vec::new(), 1, " ms"), "– ms");
}

#[test]
fn a_face_changes_only_with_its_state() {
    let mut faces = vec![ink(false), ink(false), ink(false)];
    assert_eq!(ink_frame(&mut faces, &vec![0, 2]), vec![1]);
    assert_eq!(faces[1], "background:var(--stage-orange)");
    assert_eq!(ink_frame(&mut faces, &vec![0, 1, 1]), vec![2]);
    assert_eq!(ink_frame(&mut faces, &Vec::new()), vec![1, 2]);
}

#[test]
fn a_ring_and_its_label_wear_one_colour() {
    let client = Client {
        ink: "rgb(1 2 3)".to_string(),
        label: "x".to_string(),
    };
    assert_eq!(ring_ink(&client), "border-color:rgb(1 2 3)");
    assert_eq!(label_ink(&client), "color:rgb(1 2 3)");
    assert_eq!(spread(10), "--grid-clients:10");
    let key = Key {
        ink: Paint::Red,
        means: "refused",
    };
    assert_eq!(swatch(&key), "background:var(--stage-red)");
    assert_eq!(painted("fill", Paint::Grey), "fill:var(--stage-grey)");
}

#[test]
fn a_tenants_wire_is_drawn_each_way() {
    let wire = Wire {
        tenant: 0,
        server: 0,
        shed: false,
        sent: vec![Part { done: 1, of: 2 }],
        home: vec![vec![], vec![Part { done: 1, of: 2 }]],
    };
    assert_eq!(outbound(&wire), "stroke-dasharray:0 490.0 20.0 490.0");
    assert_eq!(
        reply(&wire, 1, Paint::Amber),
        "stroke:var(--stage-amber);stroke-dasharray:0 490.0 20.0 490.0"
    );
    assert_eq!(
        reply(&wire, 4, Paint::Green),
        "stroke:var(--stage-green);stroke-dasharray:0 1000.0",
        "a lane nobody uses is bare"
    );
    let dot = TenantDot {
        name: "a",
        tint: Paint::Teal,
    };
    assert_eq!(dot_ring(&dot), "border-color:var(--stage-teal)");
}

#[test]
fn a_control_says_what_pressing_it_does() {
    assert_eq!(run_label(true), "❚❚ Pause");
    assert_eq!(run_label(false), "▶ Run");
    assert_eq!(HeadingLevel::Title.tag(), "h1");
    assert_eq!(HeadingLevel::Section.tag(), "h2");
    assert!(invite(true, false).loose && invite(true, true).tight);
    assert!(!invite(false, true).asking);
    assert_eq!(hide_unless(false), "display:none");
    assert_eq!(hide_unless(true), "");
}

#[test]
fn a_slider_wears_its_tint_and_its_name() {
    assert_eq!(Name::new("speed", 52).set_in(), "min-width:52px");
    assert_eq!(pill(None), "");
    assert_eq!(
        pill(Some("var(--cut-ink)")),
        "color:var(--cut-ink);background:color-mix(in srgb, var(--cut-ink) 16%, transparent)"
    );
    assert_eq!(inks(None), (RAIL_FILL, GRAB));
    assert_eq!(inks(Some("red")), ("red", "red"));
    assert_eq!(grab_of("red"), "--knob-grab:red");
}
