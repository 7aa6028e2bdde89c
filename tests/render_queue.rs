use bee2d::render::{Color, DrawCall, Rect, RenderQueue, TextureCache};

const WHITE: Color = Color { r: 255, g: 255, b: 255, a: 255 };
const RED: Color = Color { r: 255, g: 0, b: 0, a: 255 };

fn rect(x: i32) -> Rect {
    Rect { x, y: 2, width: 10, height: 20 }
}

fn loaded(paths: &[&str]) -> TextureCache {
    let mut cache = TextureCache::new();
    for p in paths {
        cache.insert_loaded(p.to_string());
    }
    cache
}

#[test]
fn calls_keep_request_order_and_queue_empties() {
    let cache = loaded(&["a.png"]);
    let mut q: RenderQueue<(f32, f32)> = RenderQueue::new();
    q.push_rectangle(rect(1), WHITE);
    q.push_rectangle(rect(2), RED);
    q.push_sprite(String::from("a.png"), (4.0, 5.0), WHITE);
    let calls = q.flush(&cache);
    assert_eq!(calls.len(), 3);
    assert!(matches!(calls[0], DrawCall::Rectangle { rect: r, color: c } if r == rect(1) && c == WHITE));
    assert!(matches!(calls[1], DrawCall::Rectangle { rect: r, color: c } if r == rect(2) && c == RED));
    assert!(matches!(calls[2], DrawCall::Texture { handle: 0, placement: (x, y), color: c } if x == 4.0 && y == 5.0 && c == WHITE));
    assert_eq!(q.len(), 0);
    assert_eq!(q.flush(&cache).len(), 0);
}

#[test]
fn same_path_is_loaded_once() {
    let mut cache = TextureCache::new();
    cache.request_load(String::from("a.png"));
    cache.request_load(String::from("a.png"));
    let loads = cache.take_loads();
    assert_eq!(loads, vec![String::from("a.png")]);
    let h = cache.insert_loaded(loads[0].clone());
    assert_eq!(h, 0);
    assert_eq!(cache.resolve(&String::from("a.png")), Some(0));
    assert_eq!(cache.resolve(&String::from("a.png")), Some(0));
    cache.request_load(String::from("a.png"));
    assert_eq!(cache.take_loads(), Vec::<String>::new());
}

#[test]
fn loads_keep_first_request_order() {
    let mut cache = loaded(&["b.png"]);
    for p in ["c.png", "b.png", "a.png", "c.png"] {
        cache.request_load(p.to_string());
    }
    assert_eq!(cache.take_loads(), vec![String::from("c.png"), String::from("a.png")]);
    assert_eq!(cache.take_loads(), Vec::<String>::new());
}

#[test]
fn unrequested_texture_is_skipped() {
    let cache = loaded(&["a.png"]);
    let mut q: RenderQueue<(f32, f32)> = RenderQueue::new();
    q.push_sprite(String::from("never.png"), (1.0, 1.0), WHITE);
    q.push_rectangle(rect(7), RED);
    let calls = q.flush(&cache);
    assert_eq!(calls.len(), 1);
    assert!(matches!(calls[0], DrawCall::Rectangle { rect: r, color: c } if r == rect(7) && c == RED));
}

#[test]
fn resolving_twice_gives_the_same_handle() {
    let mut cache = loaded(&["a.png", "b.png"]);
    let first = cache.resolve(&String::from("b.png"));
    let second = cache.resolve(&String::from("b.png"));
    assert_eq!(first, Some(1));
    assert_eq!(first, second);
    assert_eq!(cache.insert_loaded(String::from("b.png")), 1);
    assert_eq!(cache.len(), 2);
    assert_eq!(cache.resolve(&String::from("c.png")), None);
}

#[test]
fn new_paths_get_new_handles() {
    let mut cache = TextureCache::new();
    assert_eq!(cache.insert_loaded(String::from("x.png")), 0);
    assert_eq!(cache.insert_loaded(String::from("y.png")), 1);
    assert_eq!(cache.insert_loaded(String::from("x.png")), 0);
    assert_eq!(cache.len(), 2);
    assert_eq!(cache.resolve(&String::from("y.png")), Some(1));
}

#[test]
fn shape_keeps_its_place_among_skipped_sprites() {
    let cache = loaded(&["a.png"]);
    let mut q: RenderQueue<(f32, f32)> = RenderQueue::new();
    q.push_sprite(String::from("a.png"), (0.0, 0.0), WHITE);
    q.push_sprite(String::from("never.png"), (1.0, 1.0), WHITE);
    q.push_rectangle(rect(3), RED);
    q.push_sprite(String::from("never.png"), (2.0, 2.0), WHITE);
    q.push_rectangle(rect(4), WHITE);
    let calls = q.flush(&cache);
    assert_eq!(calls.len(), 3);
    assert!(matches!(calls[0], DrawCall::Texture { handle: 0, .. }));
    assert!(matches!(calls[1], DrawCall::Rectangle { rect: r, color: c } if r == rect(3) && c == RED));
    assert!(matches!(calls[2], DrawCall::Rectangle { rect: r, color: c } if r == rect(4) && c == WHITE));
}

#[test]
fn next_frame_draws_only_its_own_requests() {
    let cache = loaded(&["a.png"]);
    let mut q: RenderQueue<(f32, f32)> = RenderQueue::new();
    q.push_rectangle(rect(1), WHITE);
    q.push_sprite(String::from("a.png"), (0.0, 0.0), RED);
    assert_eq!(q.flush(&cache).len(), 2);
    q.push_sprite(String::from("a.png"), (9.0, 8.0), WHITE);
    q.push_rectangle(rect(5), RED);
    let calls = q.flush(&cache);
    assert_eq!(calls.len(), 2);
    assert!(matches!(calls[0], DrawCall::Texture { handle: 0, placement: (x, y), color: c } if x == 9.0 && y == 8.0 && c == WHITE));
    assert!(matches!(calls[1], DrawCall::Rectangle { rect: r, color: c } if r == rect(5) && c == RED));
}
