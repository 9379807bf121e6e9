use metro_services::metro::{
    build_metro_graph, find_nearest, find_path, generate_new_schema, get_stations, stations_of_stops, try_find_path,
    Link, MetroGraph, MetroPath, Nearest, Station, StopRecord, SubwayStation,
};

fn station(node: &str, id: &str, name: &str) -> Station {
    Station { node_id: node.to_owned(), station_id: id.to_owned(), station_name: name.to_owned() }
}

fn link(from: &str, to: &str, time: u64) -> Link {
    Link { from: from.to_owned(), to: to.to_owned(), time }
}

/// Four stations in a line, n1 -> n2 -> n3 -> n4, with a slow n1 -> n3 link;
/// the links go one way only.
fn sample_graph() -> MetroGraph {
    let stops = vec![
        station("n1", "s1", "Alpha"),
        station("n2", "s2", "Beta"),
        station("n3", "s3", "Gamma"),
        station("n4", "s4", "Delta"),
        station("n9", "s9", "Unlisted"),
    ];
    let ids = vec!["n1".to_owned(), "n2".to_owned(), "n3".to_owned(), "n4".to_owned(), "n5".to_owned()];
    let links = vec![
        link("n1", "n2", 120),
        link("n2", "n3", 90),
        link("n1", "n3", 300),
        link("n3", "n4", 30),
        link("n4", "n9", 10),
    ];
    build_metro_graph(&stops, &ids, &links)
}

#[test]
fn shortest_path_and_its_minutes() {
    let g = sample_graph();
    let p = find_path(Some(&g), "n1", "n3").ok().unwrap();
    assert_eq!(p.time, 4);
    let names: Vec<String> = p.stations.iter().map(|s| s.station_name.clone()).collect();
    assert_eq!(names, vec!["Alpha".to_owned(), "Beta".to_owned(), "Gamma".to_owned()]);
    assert_eq!(p.to_display(), "`Alpha->Beta->Gamma` примерно 4 минут");
    let p = find_path(Some(&g), "n1", "n4").ok().unwrap();
    assert_eq!(p.time, 4);
    let p = find_path(Some(&g), "n2", "n2").ok().unwrap();
    assert_eq!(p.time, 0);
    assert_eq!(p.stations.len(), 1);
}

#[test]
fn path_errors() {
    let g = sample_graph();
    assert_eq!(find_path(Some(&g), "n7", "n1").err().unwrap(), "Нода с id n7 не найдена в сервисе");
    assert_eq!(find_path(Some(&g), "n1", "n5").err().unwrap(), "Нода с id n5 не найдена в сервисе");
    assert_eq!(find_path(None, "n1", "n2").err().unwrap(), "Ошибка загрузки данных из файла map.json");
    assert!(try_find_path(Some(&g), "n4", "n1").is_none());
    assert!(try_find_path(Some(&g), "n1", "n2").unwrap().is_ok());
}

#[test]
fn nearest_stations_within_limit() {
    let g = sample_graph();
    let mut near: Vec<(String, u32)> = find_nearest(Some(&g), "n1", 4)
        .ok()
        .unwrap()
        .iter()
        .map(|n| (n.station.station_name.clone(), n.time))
        .collect();
    near.sort();
    assert_eq!(near, vec![("Beta".to_owned(), 2), ("Gamma".to_owned(), 4)]);
    let all = find_nearest(Some(&g), "n1", 10).ok().unwrap();
    assert_eq!(all.len(), 3);
    let none = find_nearest(Some(&g), "n4", 10).ok().unwrap();
    assert!(none.is_empty());
    assert_eq!(find_nearest(Some(&g), "zz", 10).err().unwrap(), "Нода с id zz не найдена в сервисе");
    assert_eq!(find_nearest(None, "n1", 10).err().unwrap(), "Ошибка загрузки данных из файла map.json");
}

#[test]
fn only_listed_stops_become_nodes() {
    let g = sample_graph();
    let st = get_stations(Some(&g)).ok().unwrap();
    let ids: Vec<String> = st.iter().map(|s| s.node_id.clone()).collect();
    assert_eq!(ids, vec!["n1".to_owned(), "n2".to_owned(), "n3".to_owned(), "n4".to_owned()]);
    assert_eq!(g.get_by_index("n3"), Some(2));
    assert_eq!(g.get_by_index("n9"), None);
    assert_eq!(g.get_by_index("n5"), None);
    assert!(get_stations(None).is_err());
}

#[test]
fn stored_parts_rebuild_the_map() {
    let stations = vec![station("a", "sa", "A"), station("b", "sb", "B")];
    let edges = vec![(0u32, 1u32, 61u64)];
    let indexes = vec![("a".to_owned(), 0u32), ("b".to_owned(), 1u32)];
    let g = MetroGraph::from_parts(stations, &edges, &indexes).unwrap();
    let p = find_path(Some(&g), "a", "b").ok().unwrap();
    assert_eq!(p.time, 2);
    let bad_edges = vec![(0u32, 5u32, 1u64)];
    assert!(MetroGraph::from_parts(vec![station("a", "sa", "A")], &bad_edges, &Vec::new()).is_none());
    let bad_index = vec![("a".to_owned(), 3u32)];
    assert!(MetroGraph::from_parts(vec![station("a", "sa", "A")], &Vec::new(), &bad_index).is_none());
}

#[test]
fn displays() {
    let s = station("n1", "s1", "Alpha");
    assert_eq!(s.to_display(), "node_id: n1 station_id: s1 name: Alpha");
    let ss = SubwayStation { name: "Alpha".to_owned(), id: "s1".to_owned(), line: "L1".to_owned() };
    assert_eq!(ss.to_display(), "id: s1 line: L1 name: Alpha");
    let n = Nearest { time: 7, station: station("n2", "s2", "Beta") };
    assert_eq!(n.to_display(), "Beta->7");
    let p = MetroPath { time: 12, stations: vec![] };
    assert_eq!(p.to_display(), "`` примерно 12 минут");
}

#[test]
fn parts_round_trip() {
    let g = sample_graph();
    let (stations, edges, indexes) = g.to_parts();
    assert_eq!(stations.len(), 4);
    assert_eq!(edges, vec![(0, 1, 120), (1, 2, 90), (0, 2, 300), (2, 3, 30)]);
    let mut idx = indexes.clone();
    idx.sort();
    assert_eq!(idx, vec![("n1".to_owned(), 0), ("n2".to_owned(), 1), ("n3".to_owned(), 2), ("n4".to_owned(), 3)]);
    let again = MetroGraph::from_parts(stations, &edges, &indexes).unwrap();
    let p = find_path(Some(&again), "n1", "n4").ok().unwrap();
    assert_eq!(p.time, 4);
    assert_eq!(p.stations.len(), 4);
}

#[test]
fn routes_and_costs_as_given() {
    let g = sample_graph();
    let p = g.path_of_route(61, &vec![0, 1]);
    assert_eq!(p.time, 2);
    assert_eq!(p.stations.iter().map(|s| s.node_id.clone()).collect::<Vec<_>>(), vec!["n1".to_owned(), "n2".to_owned()]);
    assert_eq!(g.path_of_route(120, &vec![0]).time, 2);
    assert_eq!(g.path_of_route(u64::MAX, &vec![]).time, u32::MAX);
    let costs = vec![(0u32, 0u64), (1, 120), (2, 210), (3, 240)];
    let near: Vec<(String, u32)> =
        g.nearest_of_costs(0, 4, &costs).iter().map(|n| (n.station.station_name.clone(), n.time)).collect();
    assert_eq!(near, vec![("Beta".to_owned(), 2), ("Gamma".to_owned(), 4)]);
    // a cost beyond u32 seconds is truncated before the limit is applied
    let huge = vec![(3u32, (1u64 << 32) + 60)];
    let near = g.nearest_of_costs(0, 4, &huge);
    assert_eq!(near.len(), 1);
    assert_eq!(near[0].time, 71582790);
}

#[test]
fn dropped_links_are_left_out() {
    let stops = vec![station("n1", "s1", "A"), station("n2", "s2", "B")];
    let ids = vec!["n1".to_owned(), "n2".to_owned()];
    // a link to an unlisted node is dropped, however long it is
    let links = vec![link("n1", "n2", 60), link("n1", "n7", u64::MAX)];
    let g = build_metro_graph(&stops, &ids, &links);
    assert!(g.costs_fit());
    assert_eq!(find_path(Some(&g), "n1", "n2").ok().unwrap().time, 1);
}

#[test]
fn any_travel_times_build_a_map() {
    let stops = vec![station("n1", "s1", "A")];
    let ids = vec!["n1".to_owned()];
    let links = vec![link("n1", "n1", u64::MAX), link("n1", "n1", u64::MAX)];
    let g = build_metro_graph(&stops, &ids, &links);
    assert_eq!(g.to_parts().1, vec![(0, 0, u64::MAX), (0, 0, u64::MAX)]);
    // the heaviest link leaving the node fits in a u64 sum
    assert!(g.costs_fit());
    let stops = vec![station("n1", "s1", "A"), station("n2", "s2", "B")];
    let ids = vec!["n1".to_owned(), "n2".to_owned()];
    let links = vec![link("n1", "n2", u64::MAX), link("n2", "n1", 1)];
    let g = build_metro_graph(&stops, &ids, &links);
    assert_eq!(g.to_parts().1.len(), 2);
    assert!(!g.costs_fit());
    assert!(try_find_path(Some(&g), "n1", "n2").is_none());
}

fn stop(node: &str, id: &str) -> StopRecord {
    StopRecord { node_id: node.to_owned(), station_id: id.to_owned() }
}

fn label(key: &str, text: &str) -> (String, String) {
    (key.to_owned(), text.to_owned())
}

/// Map data in the shape of `data.json` and `names.json`: three stations on
/// a line, one stop without a name, one node without a stop.
fn sample_schema() -> MetroGraph {
    let stops = vec![
        stop("nd89811596", "st1"),
        stop("nd11111111", "st2"),
        stop("nd77715428", "st3"),
        stop("nd22222222", "st4"),
    ];
    let labels = vec![label("st1-name", "Охотный ряд"), label("st2-name", "Лубянка"), label("st3-name", "Чистые пруды")];
    let ids = vec![
        "nd89811596".to_owned(),
        "nd11111111".to_owned(),
        "nd77715428".to_owned(),
        "nd22222222".to_owned(),
        "nd33333333".to_owned(),
    ];
    let links = vec![
        link("nd89811596", "nd11111111", 100),
        link("nd11111111", "nd89811596", 100),
        link("nd11111111", "nd77715428", 130),
        link("nd77715428", "nd11111111", 130),
        link("nd77715428", "nd22222222", 400),
        link("nd22222222", "nd33333333", 50),
    ];
    generate_new_schema(&stops, &labels, &ids, &links)
}

#[test]
fn test_generate_new_schema() {
    let g = sample_schema();
    let st = get_stations(Some(&g)).ok().unwrap();
    let names: Vec<String> = st.iter().map(|s| s.station_name.clone()).collect();
    assert_eq!(names, vec!["Охотный ряд".to_owned(), "Лубянка".to_owned(), "Чистые пруды".to_owned(), "".to_owned()]);
    assert_eq!(st[3].station_id, "st4");
    assert_eq!(g.get_by_index("nd77715428"), Some(2));
    assert_eq!(g.get_by_index("nd33333333"), None);
    assert_eq!(g.to_parts().1, vec![(0, 1, 100), (1, 0, 100), (1, 2, 130), (2, 1, 130), (2, 3, 400)]);
}

#[test]
fn test_find_path() {
    let g = sample_schema();
    let path = find_path(Some(&g), "nd89811596", "nd77715428");
    let p = path.ok().unwrap();
    assert_eq!(p.to_display(), "`Охотный ряд->Лубянка->Чистые пруды` примерно 4 минут");
}

#[test]
fn test_find_nearest() {
    let g = sample_schema();
    let nrst = find_nearest(Some(&g), "nd89811596", 10).ok().unwrap();
    let mut shown: Vec<String> = nrst.iter().map(|n| n.to_display()).collect();
    shown.sort();
    assert_eq!(shown, vec!["Лубянка->2".to_owned(), "Чистые пруды->4".to_owned()]);
    assert!(find_nearest(Some(&g), "nd89811596", 0).ok().unwrap().is_empty());
}

#[test]
fn stops_are_named_by_their_labels() {
    let stops = vec![stop("n1", "a"), stop("n2", "b"), stop("n3", "c")];
    let labels = vec![label("a-name", "First"), label("b", "Wrong key"), label("a-name", "Later"), label("c-name", "")];
    let st = stations_of_stops(&stops, &labels);
    let names: Vec<String> = st.iter().map(|s| s.station_name.clone()).collect();
    assert_eq!(names, vec!["Later".to_owned(), "".to_owned(), "".to_owned()]);
    assert_eq!(st[1].node_id, "n2");
    assert_eq!(st[2].station_id, "c");
    assert!(stations_of_stops(&Vec::new(), &labels).is_empty());
}

#[test]
fn route_time_matches_nearest_time() {
    let g = sample_schema();
    let route = find_path(Some(&g), "nd89811596", "nd22222222").ok().unwrap();
    let near = find_nearest(Some(&g), "nd89811596", 20).ok().unwrap();
    let to_last = near.iter().find(|n| n.station.node_id == "nd22222222").unwrap();
    assert_eq!(route.time, to_last.time);
    assert_eq!(route.time, 11);
    // raising the limit keeps every station found within the lower one
    let fewer = find_nearest(Some(&g), "nd89811596", 5).ok().unwrap();
    for n in &fewer {
        assert!(near.iter().any(|m| m.station.node_id == n.station.node_id && m.time == n.time));
    }
    assert_eq!(fewer.len(), 2);
}
