use std::collections::HashMap;

use vimacs::editor::Editor;
use vimacs::storage::SaveProtocol;
use vimacs::storage::SaveStage;
use vimacs::storage::lock_path;
use vimacs::storage::rows_to_string;
use vimacs::storage::split_lines;

fn editor_with(text: &str, name: &str) -> Editor {
    let mut e = Editor::new(24, 80);
    e.open(name.as_bytes().to_vec(), &text.as_bytes().to_vec());
    e
}

#[test]
fn saving_and_reopening_recovers_rows() {
    let original = "first line\nsecond\n\nlast one\n";
    let mut e = editor_with(original, "t.txt");
    let bytes = rows_to_string(&e.rows);
    assert_eq!(bytes, original.as_bytes().to_vec());
    let mut e2 = Editor::new(24, 80);
    e2.open(b"t.txt".to_vec(), &bytes);
    let t1: Vec<Vec<u8>> = e.rows.iter().map(|r| r.text.clone()).collect();
    let t2: Vec<Vec<u8>> = e2.rows.iter().map(|r| r.text.clone()).collect();
    assert_eq!(t1, t2);
    let _ = &mut e;
}

#[test]
fn split_lines_edges() {
    assert_eq!(split_lines(&b"".to_vec()), Vec::<Vec<u8>>::new());
    assert_eq!(split_lines(&b"a\n".to_vec()), vec![b"a".to_vec()]);
    assert_eq!(split_lines(&b"a\nb".to_vec()), vec![b"a".to_vec(), b"b".to_vec()]);
    assert_eq!(
        split_lines(&b"a\n\nb\n".to_vec()),
        vec![b"a".to_vec(), b"".to_vec(), b"b".to_vec()]
    );
}

#[test]
fn lock_path_naming() {
    assert_eq!(lock_path(&b"foo.c".to_vec()), b"foo.c.lock".to_vec());
    assert_eq!(lock_path(&b"dir/file.txt".to_vec()), b"dir/file.txt.lock".to_vec());
    assert_eq!(lock_path(&b"foo".to_vec()), b"foo..lock".to_vec());
    assert_eq!(lock_path(&b".bashrc".to_vec()), b".bashrc..lock".to_vec());
    assert_eq!(lock_path(&b"a.b/foo".to_vec()), b"a.b/foo..lock".to_vec());
}

struct FakeFs {
    files: HashMap<Vec<u8>, Vec<u8>>,
    fail_write: bool,
    fail_rename: bool,
}

impl FakeFs {
    fn run(&mut self, mut p: SaveProtocol) -> bool {
        loop {
            match p.stage {
                SaveStage::WriteLock => {
                    if self.fail_write {
                        p.advance(false);
                    } else {
                        self.files.insert(p.lock.clone(), p.content.clone());
                        p.advance(true);
                    }
                },
                SaveStage::Rename => {
                    if self.fail_rename {
                        p.advance(false);
                    } else {
                        let moved = self.files.remove(&p.lock).expect("lock file was written");
                        self.files.insert(p.target.clone(), moved);
                        p.advance(true);
                    }
                },
                SaveStage::Cleanup => {
                    let removed = self.files.remove(&p.lock).is_some();
                    p.advance(removed);
                },
                SaveStage::Done => {
                    return p.succeeded;
                },
            }
        }
    }
}

#[test]
fn failed_write_leaves_target_untouched() {
    let mut e = editor_with("new content\n", "t.txt");
    let mut fs = FakeFs { files: HashMap::new(), fail_write: true, fail_rename: false };
    fs.files.insert(b"t.txt".to_vec(), b"old content\n".to_vec());
    let p = e.start_save();
    let ok = fs.run(p);
    assert!(!ok);
    e.finish_save(ok);
    assert_eq!(fs.files[&b"t.txt".to_vec()], b"old content\n".to_vec());
    assert!(!fs.files.contains_key(&b"t.txt.lock".to_vec()));
}

#[test]
fn failed_rename_leaves_target_untouched() {
    let mut e = editor_with("new content\n", "t.txt");
    e.dirty = true;
    let mut fs = FakeFs { files: HashMap::new(), fail_write: false, fail_rename: true };
    fs.files.insert(b"t.txt".to_vec(), b"old content\n".to_vec());
    let p = e.start_save();
    let ok = fs.run(p);
    assert!(!ok);
    e.finish_save(ok);
    assert_eq!(fs.files[&b"t.txt".to_vec()], b"old content\n".to_vec());
    assert!(!fs.files.contains_key(&b"t.txt.lock".to_vec()));
    assert!(e.dirty);
}

#[test]
fn successful_save_replaces_target_and_clears_dirty() {
    let mut e = editor_with("new content\n", "t.txt");
    e.dirty = true;
    let mut fs = FakeFs { files: HashMap::new(), fail_write: false, fail_rename: false };
    fs.files.insert(b"t.txt".to_vec(), b"old content\n".to_vec());
    let p = e.start_save();
    assert_eq!(p.target, b"t.txt".to_vec());
    assert_eq!(p.lock, b"t.txt.lock".to_vec());
    let ok = fs.run(p);
    assert!(ok);
    e.finish_save(ok);
    assert_eq!(fs.files[&b"t.txt".to_vec()], b"new content\n".to_vec());
    assert!(!e.dirty);
    assert_eq!(e.status_msg, b"Saved!".to_vec());
}

#[test]
fn save_as_binds_name_and_selects_rules() {
    let mut e = editor_with("int x;\n", "plain.txt");
    assert_eq!(e.syntax.file_type, Vec::<u8>::new());
    e.set_file_name(b"prog.c".to_vec());
    let p = e.start_save();
    assert_eq!(p.target, b"prog.c".to_vec());
    assert_eq!(e.syntax.file_type, b"c".to_vec());
}
