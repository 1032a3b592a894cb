use tds::window::LayoutError;
use tds::window::SymbolWindow;

fn weight_ratio(sw: &SymbolWindow, name: &str) -> f64 {
    match sw.get_weight(name) {
        None => 0.0,
        Some(w) => w as f64 / sw.get_total_weight() as f64,
    }
}

#[test]
fn test_symbol_window() {
    let mut sw = SymbolWindow::new();

    // resize
    let test_width = 50;
    sw.resize(test_width);
    assert_eq!(sw.get_width(), test_width);

    let tags = ["name", "age", "gender"];
    // insert
    sw.add_tag(&tags);
    match sw.get_tag(tags.len() - 1) {
        None => panic!("should be gender"),
        Some(s) => assert_eq!(s, "gender"),
    };

    // not exist label's weight is 0
    assert_eq!(weight_ratio(&sw, "sdfsdfsdfsdf") == 0.0, true);

    // each label's weight is 0.33...
    assert_eq!(weight_ratio(&sw, "name") < 0.34, true);
    assert_eq!(weight_ratio(&sw, "name") > 0.32, true);

    // double first label's weight
    sw.change_weight("name", 2, 1);

    // should be 0.5
    assert_eq!(weight_ratio(&sw, "name") > 0.49, true);
    assert_eq!(weight_ratio(&sw, "name") < 0.51, true);

    match sw.get_weight("name") {
        Some(w) => assert_eq!(w, 200),
        None => panic!("wrong weight"),
    }
    sw.refresh().unwrap();
    match sw.get_col_width() {
        Err(_) => panic!("count width failed"),
        Ok(vw) => {
            let div = (tags.len() + 1) as i32;
            let total_width = vw.iter().fold(div, |sum, &wid| sum + wid);
            assert_eq!(total_width, test_width);
        },
    }
    // build title
    sw.resize_title(0);
    let title = match sw.build_title() {
        Err(msg) => panic!("{:?}", msg),
        Ok(t) => t,
    };
    let expect_title = "+------------------------------------------------+\n".to_string()
        + "|         name          |    age     |  gender   |\n"
        + "+------------------------------------------------+\n";
    assert_eq!(title, expect_title);

    let data = vec![
        vec!["data1".to_string(), "1".to_string(), "4".to_string()],
        vec!["data2".to_string(), "2".to_string(), "5".to_string()],
        vec!["data3".to_string(), "3".to_string(), "6".to_string()],
    ];
    let mut rs = Vec::new();
    for d in data.iter() {
        if let Ok(row) = sw.build_row(&d[..]) {
            rs.push(row);
        }
    }
    let expect_rs = vec![
        String::from("|         data1         |     1      |     4     |\n"),
        String::from("|         data2         |     2      |     5     |\n"),
        String::from("|         data3         |     3      |     6     |\n"),
    ];
    assert_eq!(rs, expect_rs);
}

#[test]
fn test_width_conservation() {
    let mut sw = SymbolWindow::new();
    sw.resize(37);
    sw.add_tag(&["a", "b", "c", "d"]);
    sw.change_weight("a", 3, 1);
    sw.change_weight("b", 2, 5);
    sw.change_weight("c", 3, 10);
    sw.refresh().unwrap();
    let vw = sw.get_col_width().unwrap();
    let sum: i32 = vw.iter().sum();
    // sum(widths) + column_count + 1 == total_width
    assert_eq!(sum + 4 + 1, 37);
}

#[test]
fn test_stale_calls_rejected() {
    let mut sw = SymbolWindow::new();
    sw.add_tag(&["a", "b"]);
    assert_eq!(sw.build_title().err(), Some(LayoutError::StaleLayout));
    assert_eq!(
        sw.build_row(&["x".to_string()]).err(),
        Some(LayoutError::StaleLayout)
    );
    assert_eq!(sw.build_div("part").err(), Some(LayoutError::StaleLayout));
    assert_eq!(sw.get_col_width().err(), Some(LayoutError::StaleLayout));
    assert!(matches!(sw.build_title_space_line(), Err(LayoutError::StaleLayout)));
}

#[test]
fn test_refresh_is_idempotent() {
    let mut sw = SymbolWindow::new();
    sw.resize(41);
    sw.add_tag(&["one", "two", "three"]);
    sw.refresh().unwrap();
    let first = sw.get_col_width().unwrap();
    sw.refresh().unwrap();
    let second = sw.get_col_width().unwrap();
    assert_eq!(first, second);
}

#[test]
fn test_refresh_failure_is_reported() {
    let mut sw = SymbolWindow::new();
    sw.add_tag(&["a", "b", "c"]);
    sw.resize(4);
    assert_eq!(sw.refresh(), Err(LayoutError::InsufficientWidth));
    // the widths stay unavailable
    assert_eq!(sw.get_col_width().err(), Some(LayoutError::StaleLayout));
}

#[test]
fn test_build_div_and_foot() {
    let mut sw = SymbolWindow::new();
    sw.resize(20);
    sw.add_tag(&["a"]);
    sw.refresh().unwrap();
    assert_eq!(sw.build_div("part").unwrap(), "| ----- part ----- |\n");
    assert_eq!(sw.build_foot().unwrap(), "+------------------+\n");
    assert_eq!(sw.build_empty_line().unwrap(), "|                  |\n");
}

#[test]
fn test_rejected_weight_changes() {
    let mut sw = SymbolWindow::new();
    sw.add_tag(&["a", "b"]);
    sw.refresh().unwrap();
    // pushing the share to the whole is a no-op
    sw.change_weight("a", 2, 1);
    assert_eq!(sw.get_weight("a"), Some(100));
    // pushing the weight below one is a no-op
    sw.change_weight("a", 1, 1000);
    assert_eq!(sw.get_weight("a"), Some(100));
    // a missing tag is a no-op
    sw.change_weight("zzz", 3, 2);
    assert_eq!(sw.get_total_weight(), 200);
}
