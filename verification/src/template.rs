//! The text of a default configuration file.

use vstd::prelude::*;

use crate::config::{
    legacy_args, legacy_class_hints, legacy_default_args, legacy_default_class_hints,
    legacy_default_process_names, legacy_default_title_hints, legacy_process_names,
    legacy_title_hints, DEFAULT_ENFORCE_INTERVAL_MS,
    DEFAULT_POSITION_TOLERANCE, DEFAULT_STABLE_CONFIRMATIONS, DEFAULT_TARGET_HEIGHT,
    DEFAULT_TARGET_WIDTH, DEFAULT_TARGET_X, DEFAULT_TARGET_Y, DEFAULT_WAIT_AFTER_LAUNCH_MS,
    DEFAULT_WAIT_TIMEOUT_MS, LEGACY_DEFAULT_EXE,
};
use crate::names::slice_texts;
use crate::text::{decimal, decimal_text, signed_decimal, signed_text};

verus! {

/// The texts in quotation marks, with commas between them.
pub open spec fn quoted_list(s: Seq<Seq<char>>) -> Seq<char>
    decreases s.len(),
{
    if s.len() == 0 {
        seq![]
    } else {
        let front = quoted_list(s.drop_last());
        let sep = if s.len() > 1 {
            ", "@
        } else {
            seq![]
        };
        front + sep + "\""@ + s.last() + "\""@
    }
}

fn quote_all(v: &Vec<&str>) -> (r: String)
    ensures
        r@ == quoted_list(slice_texts(v@)),
{
    let ghost all = slice_texts(v@);
    let mut r = String::new();
    let mut i: usize = 0;
    assert(all.take(0) == Seq::<Seq<char>>::empty());
    while i < v.len()
        invariant
            i <= v.len(),
            all == slice_texts(v@),
            r@ == quoted_list(all.take(i as int)),
        decreases v.len() - i,
    {
        proof {
            let t = all.take(i + 1);
            assert(t.drop_last() == all.take(i as int));
            assert(t.last() == v@[i as int]@);
            assert(r@ + Seq::<char>::empty() == r@);
        }
        if i > 0 {
            r.append(", ");
        }
        r.append("\"");
        r.append(v[i]);
        r.append("\"");
        i += 1;
    }
    assert(all.take(all.len() as int) == all);
    r
}

fn first_of(v: &Vec<&'static str>) -> (r: &'static str)
    requires
        slice_texts(v@).len() > 0,
    ensures
        r@ == slice_texts(v@)[0],
{
    v[0]
}

/// The section of the defaults.
pub open spec fn defaults_section() -> Seq<char> {
    "# launch_apps.toml\n# 相对路径会按“配置文件所在目录”解析。\n# 多个 [[apps]] 会按顺序依次启动，并把窗口固定到指定位置和大小。\n\n[defaults]\nwait_timeout_ms = "@
        + decimal(DEFAULT_WAIT_TIMEOUT_MS as nat) + "\nwait_after_launch_ms = "@ + decimal(
        DEFAULT_WAIT_AFTER_LAUNCH_MS as nat,
    ) + "\nenforce_interval_ms = "@ + decimal(DEFAULT_ENFORCE_INTERVAL_MS as nat)
        + "\nstable_confirmations = "@ + decimal(DEFAULT_STABLE_CONFIRMATIONS as nat)
        + "\nposition_tolerance = "@ + signed_decimal(DEFAULT_POSITION_TOLERANCE as int) + "\n"@
}

/// The entry of the application that is launched by default.
pub open spec fn first_entry() -> Seq<char> {
    "\n[[apps]]\nname = \"wow\"\nexe = \""@ + LEGACY_DEFAULT_EXE@
        + "\"\nargs = [\""@ + legacy_default_args()[0] + "\"]\nprocess_names = ["@ + quoted_list(
        legacy_default_process_names(),
    ) + "]\nclass_hints = [\""@ + legacy_default_class_hints()[0] + "\"]\ntitle_hints = [\""@
        + legacy_default_title_hints()[0] + "\"]\nx = "@
        + signed_decimal(DEFAULT_TARGET_X as int) + "\ny = "@ + signed_decimal(
        DEFAULT_TARGET_Y as int,
    ) + "\nwidth = "@ + signed_decimal(DEFAULT_TARGET_WIDTH as int) + "\nheight = "@
        + signed_decimal(DEFAULT_TARGET_HEIGHT as int) + "\n"@
}

/// The entry of a second application, disabled.
pub open spec fn second_entry() -> Seq<char> {
    "\n[[apps]]\nenabled = false\nname = \"notepad\"\nexe = \"C:\\\\Windows\\\\System32\\\\notepad.exe\"\ntitle_hints = [\"notepad\", \"记事本\"]\nx = 650\ny = 100\nwidth = 900\nheight = 700\n"@
}

/// The text of a default configuration file.
pub open spec fn template_text() -> Seq<char> {
    defaults_section() + first_entry() + second_entry()
}

/// The text of a default configuration file.
pub fn default_config_template() -> (r: String)
    ensures
        r@ == template_text(),
{
    let mut d =
        "# launch_apps.toml\n# 相对路径会按“配置文件所在目录”解析。\n# 多个 [[apps]] 会按顺序依次启动，并把窗口固定到指定位置和大小。\n\n[defaults]\nwait_timeout_ms = ".to_owned();
    d.append(decimal_text(DEFAULT_WAIT_TIMEOUT_MS).as_str());
    d.append("\nwait_after_launch_ms = ");
    d.append(decimal_text(DEFAULT_WAIT_AFTER_LAUNCH_MS).as_str());
    d.append("\nenforce_interval_ms = ");
    d.append(decimal_text(DEFAULT_ENFORCE_INTERVAL_MS).as_str());
    d.append("\nstable_confirmations = ");
    d.append(decimal_text(DEFAULT_STABLE_CONFIRMATIONS as u64).as_str());
    d.append("\nposition_tolerance = ");
    d.append(signed_text(DEFAULT_POSITION_TOLERANCE).as_str());
    d.append("\n");

    let mut e = "\n[[apps]]\nname = \"wow\"\nexe = \"".to_owned();
    e.append(LEGACY_DEFAULT_EXE);
    e.append("\"\nargs = [\"");
    e.append(first_of(&legacy_args()));
    e.append("\"]\nprocess_names = [");
    e.append(quote_all(&legacy_process_names()).as_str());
    e.append("]\nclass_hints = [\"");
    e.append(first_of(&legacy_class_hints()));
    e.append("\"]\ntitle_hints = [\"");
    e.append(first_of(&legacy_title_hints()));
    e.append("\"]\nx = ");
    e.append(signed_text(DEFAULT_TARGET_X).as_str());
    e.append("\ny = ");
    e.append(signed_text(DEFAULT_TARGET_Y).as_str());
    e.append("\nwidth = ");
    e.append(signed_text(DEFAULT_TARGET_WIDTH).as_str());
    e.append("\nheight = ");
    e.append(signed_text(DEFAULT_TARGET_HEIGHT).as_str());
    e.append("\n");

    d.append(e.as_str());
    d.append(
        "\n[[apps]]\nenabled = false\nname = \"notepad\"\nexe = \"C:\\\\Windows\\\\System32\\\\notepad.exe\"\ntitle_hints = [\"notepad\", \"记事本\"]\nx = 650\ny = 100\nwidth = 900\nheight = 700\n",
    );
    d
}

proof fn lemma_numerals()
    ensures
        decimal(60000) == "60000"@,
        decimal(0) == "0"@,
        decimal(200) == "200"@,
        decimal(5) == "5"@,
        signed_decimal(4) == "4"@,
        signed_decimal(100) == "100"@,
        signed_decimal(500) == "500"@,
{
    reveal_with_fuel(decimal, 6);
    reveal_strlit("60000");
    reveal_strlit("0");
    reveal_strlit("200");
    reveal_strlit("5");
    reveal_strlit("4");
    reveal_strlit("100");
    reveal_strlit("500");
    assert(decimal(60000) == "60000"@);
    assert(decimal(0) == "0"@);
    assert(decimal(200) == "200"@);
    assert(decimal(5) == "5"@);
    assert(decimal(4) == "4"@);
    assert(decimal(100) == "100"@);
    assert(decimal(500) == "500"@);
}

/// A text in quotation marks behind those before it.
proof fn lemma_one_more_quoted(s: Seq<Seq<char>>, x: Seq<char>)
    ensures
        quoted_list(s.push(x)) == quoted_list(s) + (if s.len() > 0 {
            ", "@
        } else {
            seq![]
        }) + "\""@ + x + "\""@,
{
    assert(s.push(x).drop_last() == s);
}

/// A list of texts in quotation marks: no text gives nothing, and a text is put behind
/// those before it in quotation marks, with a comma and a space between.
pub proof fn law_quoted_list(s: Seq<Seq<char>>, x: Seq<char>)
    ensures
        quoted_list(seq![]) == Seq::<char>::empty(),
        s.len() == 0 ==> quoted_list(s.push(x)) == seq!['"'] + x + seq!['"'],
        s.len() > 0 ==> quoted_list(s.push(x)) == quoted_list(s) + seq![',', ' ', '"'] + x + seq![
            '"',
        ],
{
    reveal_strlit(", ");
    reveal_strlit("\"");
    lemma_one_more_quoted(s, x);
    assert("\""@ == seq!['"']);
    if s.len() > 0 {
        assert(quoted_list(s) + ", "@ + "\""@ == quoted_list(s) + seq![',', ' ', '"']);
    } else {
        assert(Seq::<char>::empty() + Seq::<char>::empty() + "\""@ == "\""@);
        assert(quoted_list(s) == Seq::<char>::empty());
    }
}

/// In the defaults, the numeral behind each key is the value that a file without that
/// key has: a minute, no wait, 200 milliseconds, five rounds, a tolerance of four.
pub proof fn law_defaults_in_the_template()
    ensures
        defaults_section()
            == "# launch_apps.toml\n# 相对路径会按“配置文件所在目录”解析。\n# 多个 [[apps]] 会按顺序依次启动，并把窗口固定到指定位置和大小。\n\n[defaults]\nwait_timeout_ms = "@
            + "60000"@ + "\nwait_after_launch_ms = "@ + "0"@ + "\nenforce_interval_ms = "@ + "200"@
            + "\nstable_confirmations = "@ + "5"@ + "\nposition_tolerance = "@ + "4"@ + "\n"@,
{
    lemma_numerals();
}

/// The first entry of the template is that of the single-application form: its
/// executable, argument, six process names and hints, and the place and the size of a
/// window that an entry has by default, each behind its own key.
pub proof fn law_first_entry_in_the_template()
    ensures
        first_entry() == "\n[[apps]]\nname = \"wow\"\nexe = \""@ + "Wow.exe"@
            + "\"\nargs = [\""@ + "-windowed"@ + "\"]\nprocess_names = ["@ + quoted_list(
            seq![
                "wow.exe"@,
                "wow-64.exe"@,
                "wowclassic.exe"@,
                "wowclassict.exe"@,
                "wowclasst.exe"@,
                "wowb.exe"@,
            ],
        ) + "]\nclass_hints = [\""@ + "GxWindowClass"@ + "\"]\ntitle_hints = [\""@
            + "World of Warcraft"@ + "\"]\nx = "@ + "100"@ + "\ny = "@ + "100"@ + "\nwidth = "@
            + "500"@ + "\nheight = "@ + "500"@ + "\n"@,
{
    lemma_numerals();
}

/// The second entry of the template is disabled and puts an editor beside the first
/// one's window.
pub proof fn law_second_entry_in_the_template()
    ensures
        second_entry()
            == "\n[[apps]]\nenabled = false\nname = \"notepad\"\nexe = \"C:\\\\Windows\\\\System32\\\\notepad.exe\"\ntitle_hints = [\"notepad\", \"记事本\"]\nx = 650\ny = 100\nwidth = 900\nheight = 700\n"@,
{
}

/// The template is the defaults, the entry that is launched, and the disabled one, in
/// this order and with nothing between.
pub proof fn law_sections_of_the_template()
    ensures
        template_text() == defaults_section() + first_entry() + second_entry(),
{
}

} // verus!
