use necrometer::card::chassis::{chassis, defs, svg_open, watermark};
use necrometer::card::palette::{hsl_hex, palette};
use necrometer::card::gauge::{self, GaugePoints};
use necrometer::card::{compose, easter, ekg, graveyard, skull, stats};
use necrometer::metrics::{Corpse, Fate, Reading, SubjectKind};
use necrometer::time::Utc;

fn sample(index: u8, total: u32) -> Reading {
    Reading {
        subject: "test-user".into(),
        kind: SubjectKind::User,
        total,
        counts: [total, 0, 0, 0, 0],
        index,
        title: "The Test Subject".into(),
        flavor: "testing edge cases".into(),
        stillborn: 0,
        stars_stranded: 0,
        oldest_corpse: None,
        days_since_any_push: Some(0),
        low_sample: false,
        entries: Vec::new(),
    }
}

#[test]
fn sunshine_at_zero() {
    assert!(easter::render(0).contains("circle"));
}

#[test]
fn cracks_at_80() {
    assert!(easter::render(80).contains("polyline"));
    assert!(easter::render(100).contains("polyline"));
}

#[test]
fn nothing_in_middle() {
    assert_eq!(easter::render(50), "");
}

#[test]
fn palette_extremes() {
    let p0 = palette(0);
    let p100 = palette(100);
    assert_eq!(p0.bg, "#0a0812");
    assert!(p100.zones[4].starts_with('#'));
}

#[test]
fn each_face_branch() {
    let p = palette(0);
    assert!(skull::render(0, &p).contains("<ellipse"));
    assert!(!skull::render(50, &p).contains("halo"));
    let p100 = palette(100);
    assert!(skull::render(100, &p100).contains("l 3,3.5"));
}

#[test]
fn zero_repos_shows_message() {
    let r = Reading {
        subject: "x".into(),
        kind: SubjectKind::User,
        total: 0,
        counts: [0; 5],
        index: 0,
        title: "g".into(),
        flavor: "f".into(),
        stillborn: 0,
        stars_stranded: 0,
        oldest_corpse: None,
        days_since_any_push: None,
        low_sample: true,
        entries: vec![],
    };
    let p = palette(0);
    let svg = stats::render(&r, &p);
    assert!(svg.contains("no repos"));
}

#[test]
fn flowers_when_all_alive() {
    let p = palette(0);
    let svg = graveyard::render(&sample(0, 0), &p);
    assert!(svg.contains("circle"));
}

#[test]
fn palette_colours() {
    let p0 = palette(0);
    assert_eq!(
        p0.zones.iter().map(|z| z.as_str()).collect::<Vec<_>>(),
        vec!["#7dffa8", "#a6ff7d", "#e9b449", "#ff8d54", "#ff5471"]
    );
    assert_eq!((p0.accent.as_str(), p0.needle.as_str()), ("#87f5ac", "#f25f77"));
    let p50 = palette(50);
    assert_eq!(p50.zones[2], "#c1a671");
    assert_eq!((p50.accent.as_str(), p50.needle.as_str()), ("#c4a56e", "#cd8390"));
    let p100 = palette(100);
    assert_eq!(p100.zones[0], "#bebebe");
    assert_eq!((p100.accent.as_str(), p100.needle.as_str()), ("#a8a8a8", "#e8e4d8"));
    assert_eq!(hsl_hex(0, 10000, 500), "#ff0000");
    assert_eq!(hsl_hex(120, 10000, 500), "#00ff00");
    assert_eq!(hsl_hex(240, 10000, 500), "#0000ff");
}

#[test]
fn chassis_parts() {
    let p = palette(10);
    assert!(svg_open().starts_with("<svg xmlns=\"http://www.w3.org/2000/svg\" width=\"495\" height=\"195\""));
    let d = defs("  AAAA  ");
    assert!(d.contains("@font-face") && d.contains("Creepster") && d.contains("base64,AAAA) format('woff2')"));
    assert!(d.ends_with("</defs>"));
    assert!(chassis(&p).contains("fill=\"#0a0812\" stroke=\"#322a4d\""));
    assert!(watermark(&p).contains("necrometer.dev"));
}

#[test]
fn stats_escape_and_lines() {
    let mut r = sample(10, 5);
    r.subject = "foo&<bar>\"baz".into();
    r.title = "A & B".into();
    r.flavor = "1 < 2 > 0".into();
    r.stars_stranded = 12;
    r.oldest_corpse = Some(("a-very-long-repository-name".into(), 42));
    r.stillborn = 2;
    let svg = stats::render(&r, &palette(10));
    assert!(svg.contains("@@foo&amp;&lt;bar&gt;&quot;baz"));
    assert!(!svg.contains("<bar>"));
    assert!(svg.contains(">A &amp; B</text>"));
    assert!(svg.contains(">5 alive</text>"));
    assert!(svg.contains("y=\"133\" font-size=\"10.5\" fill=\"#e8b34b\">12 stars stranded on dead repos</text>"));
    assert!(svg.contains("y=\"146.5\" font-size=\"10.5\" fill=\"#8a80a8\">oldest corpse: a-very-long-reposit… (42d)</text>"));
    assert!(svg.contains("y=\"160\" font-size=\"10.5\" fill=\"#7dffa8\">2 stillborn · signs of life today</text>"));
    assert!(svg.ends_with(&ekg::render(10, &palette(10))));
}

#[test]
fn graveyard_ranks_stillborn_then_longest_idle() {
    let c = |days: u32, stillborn: bool, fate: Fate| Corpse {
        name: "n".into(),
        url: String::new(),
        created_at: Utc(0),
        last_activity: Utc(0),
        days_idle: days,
        stars: 0,
        fate,
        stillborn,
    };
    let mut r = sample(60, 9);
    r.entries = vec![
        c(100, false, Fate::Cooling),
        c(5, true, Fate::Dead),
        c(1, false, Fate::Alive),
        c(900, false, Fate::Dead),
        c(300, false, Fate::Cold),
        c(200, false, Fate::Cold),
        c(250, false, Fate::Cold),
        c(50, true, Fate::Buried),
    ];
    let svg = graveyard::render(&r, &palette(60));
    // slot 0 and 1 are the stillborn (half size), slot 2 onwards the rest
    assert!(svg.contains("<path d=\"M 28.0,180.0 L 28.0,177.0 A 4 4 0 0 1 36.0,177.0"));
    assert!(svg.contains("<path d=\"M 50.0,180.0 L 50.0,177.0 A 4 4"));
    assert!(svg.contains("<path d=\"M 72.0,180.0 L 72.0,175.0 A 6 6 0 0 1 84.0,175.0"));
    assert!(svg.contains("+1</text>"));
    assert!(!svg.contains("r=\"1.7\""));
}

#[test]
fn flatlines_at_100() {
    let p = palette(100);
    let svg = ekg::render(100, &p);
    assert!(svg.contains("☠"));
}

#[test]
fn heart_at_zero() {
    let p = palette(0);
    let svg = ekg::render(0, &p);
    assert!(svg.contains("M5,8.5"));
}

#[test]
fn ekg_paths() {
    let p = palette(95);
    let flat = ekg::render(95, &p);
    assert!(flat.starts_with("<path d=\"M 200,181 L 211.7,181.0 L 223.3,181.0"));
    assert!(flat.contains("L 340.0,181.0\" stroke=\"#ff5470\""));
    let one = ekg::render(0, &palette(0));
    assert!(one.starts_with("<path d=\"M 200,181 L 205.8,181.0 L 208.8,177.0 L 211.7,171.0 L 214.6,186.0 L 217.5,181.0 L 226.2,181.0"));
    assert!(one.contains("L 296.3,186.0 L 299.2,181.0") == false);
    assert!(one.contains("L 305.0,181.0 L 316.7,181.0 L 328.3,181.0 L 340.0,181.0\""));
    let mid = ekg::render(50, &palette(50));
    assert!(mid.contains("L 208.8,178.8 L 211.7,175.5 L 214.6,183.7"));
    assert!(mid.contains("<circle cx=\"340.0\" cy=\"181.0\" r=\"1.6\""));
}

#[test]
fn graveyard_puts_the_stillborn_first() {
    let mk = |name: &str, fate: Fate, days_idle: u32, stillborn: bool| Corpse {
        name: name.into(),
        url: String::new(),
        created_at: Utc(0),
        last_activity: Utc(0),
        days_idle,
        stars: 0,
        fate,
        stillborn,
    };
    let mut r = sample(60, 4);
    r.entries = vec![
        mk("a", Fate::Dead, 100, false),
        mk("b", Fate::Cold, 10, true),
        mk("c", Fate::Dead, 500, false),
        mk("d", Fate::Alive, 1, false),
    ];
    let svg = graveyard::render(&r, &palette(60));
    assert!(svg.contains("<path d=\"M 28.0,180.0 L 28.0,177.0"));
    assert!(svg.contains("<path d=\"M 50.0,180.0 L 50.0,175.0"));
    assert!(svg.contains("<path d=\"M 72.0,180.0 L 72.0,175.0"));
    assert!(!svg.contains("M 94.0,180.0"));
    assert!(!svg.contains("<circle"));
}

/// `x,y` one decimal each, for the point `deg` degrees clockwise from up
/// on the circle of radius `r` around (95, 132).
fn pts(r: f64, deg: f64) -> String {
    let rad = deg.to_radians();
    format!("{:.1},{:.1}", 95.0 + r * rad.sin(), 132.0 - r * rad.cos())
}

fn points(index: u8) -> GaugePoints {
    let theta = 180.0 - index as f64 * 1.8;
    GaugePoints {
        zone_start: std::array::from_fn(|i| pts(62.0, 180.0 - i as f64 * 36.0)),
        zone_end: std::array::from_fn(|i| pts(62.0, 180.0 - i as f64 * 36.0 - 34.0)),
        tip: pts(50.0, theta),
        base_left: pts(3.8, theta + 90.0),
        base_right: pts(3.8, theta - 90.0),
    }
}

#[test]
fn emits_five_zone_arcs() {
    let p = palette(50);
    let svg = gauge::render(50, &p, &points(50));
    assert!(svg.matches("<path").count() >= 6);
    assert!(svg.contains("<polygon"));
}

#[test]
fn gauge_zones_needle_and_swing() {
    let p = palette(50);
    let svg = gauge::render(50, &p, &points(50));
    assert!(svg.starts_with("<path d=\"M 33.0,132.0 A 62 62 0 0 1 157.0,129.8\""));
    assert!(svg.contains(&format!(
        "<path d=\"M 95.0,194.0 A 62 62 0 0 1 129.7,183.4\" stroke=\"{}\" stroke-width=\"9\" fill=\"none\" stroke-linecap=\"round\" filter=\"url(#glow-phos)\"/>",
        p.zones[0]
    )));
    assert_eq!(svg.matches("filter=\"url(#glow-blood)\"/>").count(), 2);
    assert!(svg.contains("values=\"-90.0 95 132;4 95 132;0 95 132\""));
    assert!(svg.contains("<polygon points=\"145.0,132.0 95.0,135.8 95.0,128.2\""));
    assert!(svg.contains("<line x1=\"25\" y1=\"132\" x2=\"165\" y2=\"132\""));
    assert!(svg.ends_with(">NECROMETER</text>"));
    let calm = gauge::render(0, &palette(0), &points(0));
    assert!(calm.contains("values=\"-30.0 95 132"));
    let full = gauge::render(100, &palette(100), &points(100));
    assert!(full.contains("values=\"-180.0 95 132"));
    assert_eq!(full.matches("filter=\"url(#glow-blood)\"/>").count(), 1);
}

#[test]
fn contains_creepster_and_meta() {
    let r = sample(10, 5);
    let svg = compose(&r, "", &points(r.index));
    assert!(svg.contains("@font-face"));
    assert!(svg.contains("Creepster"));
    assert!(svg.contains("necrometer.dev"));
    assert!(svg.contains("@test-user"));
}

#[test]
fn zero_repos_message() {
    let mut r = sample(0, 0);
    r.counts = [0; 5];
    let svg = compose(&r, "", &points(r.index));
    assert!(svg.contains("no repos"));
}

#[test]
fn easter_eggs_appear() {
    let svg0 = compose(&sample(0, 5), "", &points(0));
    assert!(svg0.contains("glow-candle"));
    let svg90 = compose(&sample(90, 5), "", &points(90));
    assert!(svg90.contains("polyline"));
}

#[test]
fn escapes_user_data() {
    let mut r = sample(10, 1);
    r.subject = "foo&<bar>\"baz".into();
    r.title = "A & B".into();
    r.flavor = "1 < 2 > 0".into();
    let svg = compose(&r, "", &points(r.index));
    assert!(svg.contains("foo&amp;&lt;bar&gt;&quot;baz"));
    assert!(!svg.contains("<bar>"));
}

#[test]
fn card_is_laid_out_in_order() {
    let r = sample(50, 3);
    let p = palette(50);
    let svg = compose(&r, " QUJD ", &points(50));
    let parts = [
        svg_open(),
        defs("QUJD"),
        chassis(&p),
        graveyard::render(&r, &p),
        gauge::render(50, &p, &points(50)),
        stats::render(&r, &p),
        skull::render(50, &p),
        easter::render(50),
        watermark(&p),
        "</svg>".to_string(),
    ];
    assert_eq!(svg, parts.concat());
    assert!(svg.starts_with("<svg "));
    assert!(svg.ends_with("</svg>"));
}

#[test]
fn test_render_contains_creepster_font() {
    let r = sample(10, 5);
    let svg = compose(&r, "", &points(r.index));
    assert!(svg.contains("@font-face"));
    assert!(svg.contains("Creepster"));
    assert!(svg.contains("format('woff2')"));
    assert!(svg.contains(&format!("@{}", r.subject)));
    assert!(svg.contains(&r.title));
    assert!(svg.contains("necrometer.dev"));
}

#[test]
fn test_render_crt_palette() {
    let r = sample(0, 5);
    let svg = compose(&r, "", &points(r.index));
    assert!(svg.contains("#0a0812"));
    assert!(svg.contains("#14101f"));
    assert!(svg.contains("#0c0a16"));
    assert!(svg.contains("#322a4d"));
    assert!(svg.contains("glow-violet"));
    assert!(svg.contains("scanlines"));
}

#[test]
fn test_render_zero_repos_empty() {
    let mut r = sample(0, 0);
    r.counts = [0; 5];
    let svg = compose(&r, "", &points(r.index));
    assert!(svg.contains("no repos — nothing to bury"));
}

#[test]
fn test_render_easter_eggs() {
    let svg0 = compose(&sample(0, 5), "", &points(0));
    assert!(svg0.contains("glow-candle"));
    let svg90 = compose(&sample(90, 5), "", &points(90));
    assert!(svg90.contains("polyline"));
}

#[test]
fn test_xml_escaping() {
    let mut r = sample(10, 1);
    r.subject = "foo&<bar>\"baz".into();
    r.title = "A & B".into();
    r.flavor = "1 < 2 > 0".into();
    let svg = compose(&r, "", &points(r.index));
    assert!(svg.contains("foo&amp;&lt;bar&gt;&quot;baz"));
    assert!(svg.contains("A &amp; B"));
    assert!(svg.contains("1 &lt; 2 &gt; 0"));
    assert!(!svg.contains("<bar>"));
}

#[test]
fn hsl_basic() {
    assert_eq!(hsl_hex(0, 10000, 500), "#ff0000");
    assert_eq!(hsl_hex(120, 10000, 500), "#00ff00");
    assert_eq!(hsl_hex(240, 10000, 500), "#0000ff");
}
