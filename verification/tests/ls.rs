use crush::builtins::ls::{
    archive_color, color_for, dir_icon, entry_color, file_icon_fallback, fmt_perms, fmt_time, icon_for, render_grid, render_long,
    secs_to_ymd, sort_entries, unknown_options, visible_entries, FileInfo, LsOptions,
};

fn chars(s: &str) -> Vec<char> {
    s.chars().collect()
}

fn s(v: Vec<char>) -> String {
    v.into_iter().collect()
}

fn file(name: &str, mode: u32, is_dir: bool) -> FileInfo {
    FileInfo {
        name: name.into(),
        mode,
        is_dir,
        is_link: false,
        target: None,
        nlink: 1,
        uid: 1000,
        gid: 100,
        blocks: 8,
        mtime_secs: 0,
        mtime_nanos: 0,
        size_text: "   4096".into(),
        link_text: None,
    }
}

fn args(v: &[&str]) -> Vec<String> {
    v.iter().map(|x| x.to_string()).collect()
}

#[test]
fn options_and_paths() {
    let o = LsOptions::parse(&args(&["-la", "--no-icons", "src", "-t1", "--x"]));
    assert!(o.long && o.all && o.sort_time && o.one);
    assert!(!o.human && !o.reverse && !o.dir_only && !o.icons);
    assert_eq!(o.paths, args(&["src", "--x"]));
    let d = LsOptions::parse(&args(&["-"]));
    assert!(d.icons);
    assert_eq!(d.paths, args(&["."]));
    assert_eq!(unknown_options(&args(&["-lqz", "--icons", "-a"])), vec!['q', 'z']);
}

#[test]
fn icons_by_kind_name_and_extension() {
    assert_eq!(s(icon_for(&file("main.rs", 0o100644, false))), "\u{e7a8} ");
    assert_eq!(s(icon_for(&file("Photo.JPG", 0o100644, false))), "\u{f1c5} ");
    assert_eq!(s(icon_for(&file("src", 0o040755, true))), "\u{e5fe} ");
    assert_eq!(s(icon_for(&file("Makefile", 0o100644, false))), "\u{f013} ");
    assert_eq!(s(icon_for(&file("run", 0o100755, false))), "\u{f489} ");
    assert_eq!(s(icon_for(&file("notes", 0o100644, false))), "\u{f15b} ");
    let mut link = file("x", 0o120777, false);
    link.is_link = true;
    assert_eq!(s(icon_for(&link)), "\u{f0c1} ");
    assert_eq!(s(dir_icon(&chars("whatever"))), "\u{f07b} ");
    assert_eq!(s(file_icon_fallback(&chars("PKGBUILD"), 0o100644, false)), "\u{f303} ");
}

#[test]
fn colours_by_kind() {
    assert_eq!(s(color_for(0o100644, false, true, false)), "\x1b[1;31m");
    assert_eq!(s(color_for(0o100644, false, true, true)), "\x1b[1;36m");
    assert_eq!(s(color_for(0o040755, true, false, false)), "\x1b[1;34m");
    assert_eq!(s(color_for(0o100755, false, false, false)), "\x1b[1;32m");
    assert_eq!(s(color_for(0o060660, false, false, false)), "\x1b[0;33m");
    assert_eq!(s(color_for(0o100644, false, false, false)), "\x1b[0;37m");
    assert_eq!(archive_color(&chars("a.TAR")).map(s), Some("\x1b[0;35m".to_string()));
    assert_eq!(archive_color(&chars("song.mp3")).map(s), Some("\x1b[0;34m".to_string()));
    assert_eq!(archive_color(&chars("a.txt")), None);
    let mut link = file("l", 0o120777, false);
    link.is_link = true;
    link.target = Some((0o040755, true));
    assert_eq!(s(entry_color(&link)), "\x1b[1;36m");
}

#[test]
fn permission_strings() {
    assert_eq!(s(fmt_perms(0o100644, false, false)), "-rw-r--r--");
    assert_eq!(s(fmt_perms(0o040755, true, false)), "drwxr-xr-x");
    assert_eq!(s(fmt_perms(0o120777, false, true)), "lrwxrwxrwx");
    assert_eq!(s(fmt_perms(0o020620, false, false)), "crw--w----");
    assert_eq!(s(fmt_perms(0o140755, false, false)), "srwxr-xr-x");
}

#[test]
fn dates() {
    assert_eq!(secs_to_ymd(0), (1970, 1, 1, 0, 0));
    assert_eq!(secs_to_ymd(951_782_400), (2000, 2, 29, 0, 0));
    assert_eq!(secs_to_ymd(1_700_000_000), (2023, 11, 14, 22, 13));
    assert_eq!(s(fmt_time(1_700_000_000)), "2023-11-14 22:13");
    assert_eq!(s(fmt_time(-5)), "1970-01-01 00:00");
}

#[test]
fn hidden_files_and_order() {
    let files = vec![file("b.txt", 0o100644, false), file(".hidden", 0o100644, false), file("Adir", 0o040755, true), file("a.txt", 0o100644, false)];
    let shown = visible_entries(files, false);
    let names: Vec<String> = shown.iter().map(|f| f.name.clone()).collect();
    assert_eq!(names, args(&["b.txt", "Adir", "a.txt"]));
    let opt = LsOptions::parse(&args(&[]));
    let sorted = sort_entries(shown, &opt);
    let names: Vec<String> = sorted.iter().map(|f| f.name.clone()).collect();
    assert_eq!(names, args(&["Adir", "a.txt", "b.txt"]));
    let rev = LsOptions::parse(&args(&["-r"]));
    let back = sort_entries(sorted, &rev);
    let names: Vec<String> = back.iter().map(|f| f.name.clone()).collect();
    assert_eq!(names, args(&["b.txt", "a.txt", "Adir"]));
}

#[test]
fn newest_first_with_t() {
    let mut a = file("old", 0o100644, false);
    a.mtime_secs = 10;
    let mut b = file("new", 0o100644, false);
    b.mtime_secs = 20;
    let opt = LsOptions::parse(&args(&["-t"]));
    let sorted = sort_entries(vec![a, b], &opt);
    assert_eq!(sorted[0].name, "new");
}

#[test]
fn grid_fits_the_terminal() {
    let opt = LsOptions::parse(&args(&["--no-icons"]));
    let files = vec![file("aa", 0o100644, false), file("bbbb", 0o100644, false), file("c", 0o100644, false)];
    let lines = render_grid(&files, &opt, 80);
    let w = "\x1b[0;37m";
    let r = "\x1b[0m";
    assert_eq!(lines, vec![format!("{w}aa{r}  {w}bbbb{r}  {w}c{r}  ")]);
    let narrow = render_grid(&files, &opt, 12);
    assert_eq!(narrow, vec![format!("{w}aa{r}  {w}bbbb{r}"), format!("{w}c{r}   ")]);
    let one = LsOptions::parse(&args(&["-1", "--no-icons"]));
    assert_eq!(render_grid(&files, &one, 80).len(), 3);
}

#[test]
fn long_listing() {
    let opt = LsOptions::parse(&args(&["-l", "--no-icons"]));
    let lines = render_long(&vec![file("a.txt", 0o100644, false)], &opt);
    assert_eq!(lines[0], "total 4");
    assert_eq!(
        lines[1],
        "\x1b[2m-rw-r--r--    1  1000   100\x1b[0m    4096 \x1b[2m1970-01-01 00:00\x1b[0m  \x1b[0;37ma.txt\x1b[0m"
    );
}
