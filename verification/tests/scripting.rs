use baduhan::config::{Config, Profile};
use baduhan::keys::Mods;
use baduhan::pane_tree::Dir;
use baduhan::scripting::{
    format_title, handle_key, init_from_source, parse_keyspec, split_dir, title_hook, Action,
    KeySpec, Overrides, ScriptRun,
};
use mlua::{Function, Lua, Table, Value};
use std::cell::RefCell;
use std::rc::Rc;

const CTRL_SHIFT: Mods = Mods { shift: true, ctrl: true, alt: false, altgr: false };

#[test]
fn keyspec_parsing() {
    assert_eq!(
        parse_keyspec("ctrl+shift+g"),
        Some(KeySpec { ctrl: true, shift: true, alt: false, vk: b'G' as u16 })
    );
    assert_eq!(
        parse_keyspec("alt+f5"),
        Some(KeySpec { ctrl: false, shift: false, alt: true, vk: 0x74 })
    );
    assert_eq!(
        parse_keyspec("ctrl+enter"),
        Some(KeySpec { ctrl: true, shift: false, alt: false, vk: 0x0D })
    );
    assert_eq!(parse_keyspec("ctrl+banana"), None);
    assert_eq!(parse_keyspec(""), None);
}

fn config() -> Config {
    Config {
        font_family: "Consolas".to_string(),
        font_size: 13000,
        dim_inactive_panes: 250,
        scrollback_lines: 10000,
        browser_debug_port: 9222,
        default_profile: String::new(),
        profiles: Vec::new(),
        quake_hotkey: "ctrl+`".to_string(),
        restore_session: true,
        theme: None,
        alt_passthrough: Vec::new(),
    }
}

fn thousandths(v: f64) -> i32 {
    (v * 1000.0).round() as i32
}

/// A script that has been run, with the functions that it bound.
struct Engine {
    lua: Lua,
    binds: Vec<Function>,
    hooks: Vec<Function>,
    run: Option<ScriptRun>,
}

fn run(src: &str) -> mlua::Result<Engine> {
    let lua = Lua::new();
    let binds: Rc<RefCell<Vec<(String, Function)>>> = Rc::new(RefCell::new(Vec::new()));
    let hooks: Rc<RefCell<Vec<(String, Function)>>> = Rc::new(RefCell::new(Vec::new()));
    let profiles: Rc<RefCell<Vec<Profile>>> = Rc::new(RefCell::new(Vec::new()));
    let baduhan = lua.create_table()?;
    baduhan.set("config", lua.create_table()?)?;
    let b = binds.clone();
    baduhan.set(
        "keybind",
        lua.create_function(move |_, (spec, f): (String, Function)| {
            b.borrow_mut().push((spec, f));
            Ok(())
        })?,
    )?;
    let h = hooks.clone();
    baduhan.set(
        "on",
        lua.create_function(move |_, (event, f): (String, Function)| {
            h.borrow_mut().push((event, f));
            Ok(())
        })?,
    )?;
    let p = profiles.clone();
    baduhan.set(
        "profile",
        lua.create_function(move |_, t: Table| {
            p.borrow_mut().push(Profile {
                name: t.get("name")?,
                command: t.get("command")?,
                cwd: t.get("cwd").ok(),
            });
            Ok(())
        })?,
    )?;
    lua.globals().set("baduhan", baduhan)?;
    lua.load(src).set_name("init.lua").exec()?;
    let baduhan: Table = lua.globals().get("baduhan")?;
    let set: Table = baduhan.get("config")?;
    let overrides = Overrides {
        font_family: set.get("font_family").ok(),
        font_size: set.get::<f64>("font_size").ok().map(thousandths),
        dim_inactive_panes: set.get::<f64>("dim_inactive_panes").ok().map(|v| thousandths(v) as u16),
        scrollback_lines: set.get("scrollback_lines").ok(),
        browser_debug_port: set.get("browser_debug_port").ok(),
        default_profile: set.get("default_profile").ok(),
        quake_hotkey: set.get("quake_hotkey").ok(),
        restore_session: set.get::<Option<bool>>("restore_session").ok().flatten(),
        theme: set.get("theme").ok(),
        alt_passthrough: set.get("alt_passthrough").ok(),
    };
    let (specs, binds): (Vec<String>, Vec<Function>) = binds.borrow_mut().drain(..).unzip();
    let (events, hooks): (Vec<String>, Vec<Function>) = hooks.borrow_mut().drain(..).unzip();
    let left = ScriptRun {
        set: overrides,
        profiles: profiles.borrow_mut().drain(..).collect(),
        binds: specs,
        hooks: events,
    };
    Ok(Engine { lua, binds, hooks, run: Some(left) })
}

fn fire(eng: &Engine, i: usize) -> Vec<Action> {
    let queue: Rc<RefCell<Vec<Action>>> = Rc::new(RefCell::new(Vec::new()));
    let win = eng.lua.create_table().unwrap();
    let q = queue.clone();
    let f = eng.lua.create_function(move |_, (_this, p): (Value, Option<String>)| {
        q.borrow_mut().push(Action::NewTab(p));
        Ok(())
    });
    win.set("new_tab", f.unwrap()).unwrap();
    let q = queue.clone();
    let f = eng.lua.create_function(move |_, (_this, d): (Value, Option<String>)| {
        q.borrow_mut().push(Action::Split(split_dir(d.as_deref())));
        Ok(())
    });
    win.set("split", f.unwrap()).unwrap();
    let q = queue.clone();
    let f = eng.lua.create_function(move |_, (_this, url): (Value, String)| {
        q.borrow_mut().push(Action::Browse(url));
        Ok(())
    });
    win.set("browse", f.unwrap()).unwrap();
    let q = queue.clone();
    let f = eng.lua.create_function(move |_, (_this, d): (Value, f64)| {
        q.borrow_mut().push(Action::FontDelta(thousandths(d)));
        Ok(())
    });
    win.set("font_size", f.unwrap()).unwrap();
    let q = queue.clone();
    let f = eng.lua.create_function(move |_, (_this, t): (Value, String)| {
        q.borrow_mut().push(Action::SendText(t));
        Ok(())
    });
    win.set("send", f.unwrap()).unwrap();
    eng.binds[i].call::<()>(win).unwrap();
    let out = queue.borrow().clone();
    out
}

#[test]
fn lua_config_profiles_keybinds_and_title_hook() {
    let mut cfg = config();
    cfg.profiles.push(Profile {
        name: "Base".into(),
        command: vec!["cmd.exe".into()],
        cwd: None,
    });
    let mut eng = run(
        r#"
        baduhan.config.font_size = 15.5
        baduhan.config.default_profile = "Logs"
        baduhan.profile { name = "Logs", command = { "wsl.exe", "-d", "Ubuntu" } }
        baduhan.profile { name = "Base", command = { "pwsh.exe" } }
        baduhan.keybind("ctrl+shift+g", function(win)
          win:browse("github.com")
          win:font_size(2)
          win:send("ls\n")
          win:new_tab("Logs")
          win:split("down")
        end)
        baduhan.on("tab_title", function(t) return "* " .. t end)
        "#,
    )
    .expect("lua init");
    let bound = init_from_source(&mut cfg, eng.run.take()).unwrap();

    assert_eq!(cfg.font_size, 15500);
    assert_eq!(cfg.default_profile, "Logs");
    assert_eq!(cfg.profiles.len(), 2); // Base replaced, Logs appended
    assert_eq!(cfg.profiles[0].command, vec!["pwsh.exe"]);

    let keys: Vec<KeySpec> = bound.binds.iter().map(|(k, _)| *k).collect();
    let hit = handle_key(&keys, b'G' as u16, &CTRL_SHIFT).expect("binding fires");
    assert_eq!(
        fire(&eng, bound.binds[hit].1),
        vec![
            Action::Browse("github.com".into()),
            Action::FontDelta(2000),
            Action::SendText("ls\n".into()),
            Action::NewTab(Some("Logs".into())),
            Action::Split(Dir::Col),
        ]
    );
    // Non-matching chord falls through to built-ins.
    let ctrl = Mods { shift: false, ctrl: true, alt: false, altgr: false };
    assert!(handle_key(&keys, b'G' as u16, &ctrl).is_none());

    let hook = &eng.hooks[bound.title_hook.unwrap()];
    let hooked: Option<String> = hook.call("bash".to_string()).unwrap();
    assert_eq!(format_title("bash".to_string(), hooked), "* bash");
}

#[test]
fn a_script_that_fails_changes_nothing() {
    let mut cfg = config();
    assert!(run("this is not lua").is_err());
    assert!(init_from_source(&mut cfg, None).is_none());
    assert_eq!(cfg.font_size, 13000);
}

#[test]
fn what_the_script_does_not_set_stays() {
    let mut cfg = config();
    let run = ScriptRun {
        set: Overrides {
            font_family: None,
            font_size: None,
            dim_inactive_panes: Some(100),
            scrollback_lines: Some(5),
            browser_debug_port: Some(1),
            default_profile: None,
            quake_hotkey: None,
            restore_session: None,
            theme: None,
            alt_passthrough: None,
        },
        profiles: Vec::new(),
        binds: vec!["ctrl+banana".to_string(), "alt+x".to_string()],
        hooks: vec!["bell".to_string()],
    };
    let b = init_from_source(&mut cfg, Some(run)).unwrap();
    assert_eq!(cfg.font_family, "Consolas");
    assert_eq!(cfg.font_size, 13000);
    assert_eq!(cfg.dim_inactive_panes, 100);
    assert_eq!(cfg.scrollback_lines, 5);
    assert_eq!(cfg.browser_debug_port, 1);
    // A description that names no key is left out.
    assert_eq!(b.binds.len(), 1);
    assert_eq!(b.binds[0].1, 1);
    assert_eq!(b.title_hook, None);
}

#[test]
fn the_first_hook_for_titles_is_used() {
    let events = vec!["bell".to_string(), "tab_title".to_string(), "tab_title".to_string()];
    assert_eq!(title_hook(&events), Some(1));
    assert_eq!(format_title("a".to_string(), None), "a");
}

#[test]
fn directions_of_a_split() {
    assert_eq!(split_dir(Some("down")), Dir::Col);
    assert_eq!(split_dir(Some("below")), Dir::Col);
    assert_eq!(split_dir(Some("right")), Dir::Row);
    assert_eq!(split_dir(None), Dir::Row);
}

#[test]
fn descriptions_of_keys_are_read_loosely() {
    let want = parse_keyspec("ctrl+shift+g");
    assert!(want.is_some());
    for s in ["shift+ctrl+g", "CTRL + Shift+ G", "control+shift+ctrl+g", " ctrl\t+shift+shift+G "] {
        assert_eq!(parse_keyspec(s), want);
    }
    assert_eq!(parse_keyspec("ctrl+nokey"), None);
    assert_eq!(parse_keyspec("hyper+g"), None);
    assert_eq!(parse_keyspec("alt+f5").unwrap().vk, parse_keyspec("f5").unwrap().vk);
}

#[test]
fn a_script_can_set_every_setting() {
    let mut cfg = config();
    let run = ScriptRun {
        set: Overrides {
            font_family: Some("Consolas".to_string()),
            font_size: Some(9000),
            dim_inactive_panes: Some(1),
            scrollback_lines: Some(2),
            browser_debug_port: Some(3),
            default_profile: Some("p".to_string()),
            quake_hotkey: Some("ctrl+q".to_string()),
            restore_session: Some(!cfg.restore_session),
            theme: Some("Dracula".to_string()),
            alt_passthrough: Some(vec!["Alt+1".to_string()]),
        },
        profiles: Vec::new(),
        binds: Vec::new(),
        hooks: Vec::new(),
    };
    let was = cfg.restore_session;
    assert!(init_from_source(&mut cfg, Some(run)).is_some());
    assert_eq!((cfg.font_family.as_str(), cfg.font_size), ("Consolas", 9000));
    assert_eq!((cfg.dim_inactive_panes, cfg.scrollback_lines, cfg.browser_debug_port), (1, 2, 3));
    assert_eq!((cfg.default_profile.as_str(), cfg.quake_hotkey.as_str()), ("p", "ctrl+q"));
    assert_eq!(cfg.restore_session, !was);
    assert_eq!(cfg.theme.as_deref(), Some("Dracula"));
    assert_eq!(cfg.alt_passthrough, vec!["Alt+1".to_string()]);
}
