//! Text shown to the user or handed to the desktop: elapsed times, the
//! accent colour, the colour scheme and the desktop entry name.
use vstd::prelude::*;
use crate::text::{chars_equal, chars_of, push_char};

verus! {

/// The character of the decimal digit `d`.
pub open spec fn digit_char(d: nat) -> char {
    (d + 48) as char
}

/// The decimal digits of `n`, without leading zeros.
pub open spec fn decimal(n: nat) -> Seq<char>
    decreases n,
{
    if n < 10 {
        seq![digit_char(n)]
    } else {
        decimal(n / 10).push(digit_char(n % 10))
    }
}

/// `n` written with at least two digits.
pub open spec fn two_digits(n: nat) -> Seq<char> {
    if n < 10 {
        seq!['0', digit_char(n)]
    } else {
        decimal(n)
    }
}

/// `h:mm:ss` when there is at least an hour, `m:ss` otherwise.
pub open spec fn time_text(total: nat) -> Seq<char> {
    let h = total / 3600;
    let m = (total % 3600) / 60;
    let s = total % 60;
    if h > 0 {
        decimal(h) + seq![':'] + two_digits(m) + seq![':'] + two_digits(s)
    } else {
        decimal(m) + seq![':'] + two_digits(s)
    }
}

fn push_digit(out: &mut String, d: u64)
    requires
        d < 10,
    ensures
        final(out)@ == old(out)@.push(digit_char(d as nat)),
{
    let c = ((d as u8) + 48) as char;
    assert(c == digit_char(d as nat));
    push_char(out, c);
}

fn push_decimal(out: &mut String, n: u64)
    ensures
        final(out)@ == old(out)@ + decimal(n as nat),
    decreases n,
{
    if n >= 10 {
        push_decimal(out, n / 10);
    }
    let ghost mid = out@;
    push_digit(out, n % 10);
    proof {
        if n >= 10 {
            assert(out@ =~= old(out)@ + decimal(n as nat));
        } else {
            assert(out@ =~= old(out)@ + decimal(n as nat));
        }
    }
}

fn push_two_digits(out: &mut String, n: u64)
    ensures
        final(out)@ == old(out)@ + two_digits(n as nat),
{
    if n < 10 {
        push_char(out, '0');
        push_digit(out, n);
        assert(out@ =~= old(out)@ + two_digits(n as nat));
    } else {
        push_decimal(out, n);
    }
}

/// A duration in whole seconds as shown next to the seek bar.
pub fn format_time(total_secs: u64) -> (r: String)
    ensures
        r@ == time_text(total_secs as nat),
{
    let h = total_secs / 3600;
    let m = (total_secs % 3600) / 60;
    let s = total_secs % 60;
    let mut out = String::new();
    if h > 0 {
        push_decimal(&mut out, h);
        push_char(&mut out, ':');
        push_two_digits(&mut out, m);
        push_char(&mut out, ':');
        push_two_digits(&mut out, s);
    } else {
        push_decimal(&mut out, m);
        push_char(&mut out, ':');
        push_two_digits(&mut out, s);
    }
    assert(out@ =~= time_text(total_secs as nat));
    out
}

/// The remaining-time label: the remaining seconds after a minus sign.
pub fn format_remaining(remaining_secs: u64) -> (r: String)
    ensures
        r@ == seq!['-'] + time_text(remaining_secs as nat),
{
    let t = format_time(remaining_secs);
    let mut out = String::new();
    push_char(&mut out, '-');
    out.append(t.as_str());
    assert(out@ =~= seq!['-'] + time_text(remaining_secs as nat));
    out
}

/// The GNOME accent colour names and the colours they stand for.
pub open spec fn accent_hex_spec(name: Seq<char>) -> Option<&'static str> {
    if name == "blue"@ {
        Some("#3584e4")
    } else if name == "teal"@ {
        Some("#2190a4")
    } else if name == "green"@ {
        Some("#3a944a")
    } else if name == "yellow"@ {
        Some("#c88800")
    } else if name == "orange"@ {
        Some("#ed5b00")
    } else if name == "red"@ {
        Some("#e62d42")
    } else if name == "pink"@ {
        Some("#d56199")
    } else if name == "purple"@ {
        Some("#9141ac")
    } else if name == "slate"@ {
        Some("#6f8396")
    } else {
        None
    }
}

/// The colour of a GNOME `accent-color` setting; nothing for `default` or a
/// name this player does not know, which the toolkit handles itself.
pub fn accent_hex(name: &str) -> (r: Option<&'static str>)
    ensures
        r == accent_hex_spec(name@),
{
    let n = chars_of(name);
    if chars_equal(&n, &chars_of("blue")) {
        Some("#3584e4")
    } else if chars_equal(&n, &chars_of("teal")) {
        Some("#2190a4")
    } else if chars_equal(&n, &chars_of("green")) {
        Some("#3a944a")
    } else if chars_equal(&n, &chars_of("yellow")) {
        Some("#c88800")
    } else if chars_equal(&n, &chars_of("orange")) {
        Some("#ed5b00")
    } else if chars_equal(&n, &chars_of("red")) {
        Some("#e62d42")
    } else if chars_equal(&n, &chars_of("pink")) {
        Some("#d56199")
    } else if chars_equal(&n, &chars_of("purple")) {
        Some("#9141ac")
    } else if chars_equal(&n, &chars_of("slate")) {
        Some("#6f8396")
    } else {
        None
    }
}

/// The style sheet that sets the accent colours to `hex`, with white text
/// on accented backgrounds.
pub fn accent_css(hex: &str) -> (r: String)
    ensures
        r@ == "@define-color accent_color "@ + hex@ + "; @define-color accent_bg_color "@ + hex@
            + "; @define-color accent_fg_color #ffffff;"@,
{
    let mut out = "@define-color accent_color ".to_string();
    out.append(hex);
    out.append("; @define-color accent_bg_color ");
    out.append(hex);
    out.append("; @define-color accent_fg_color #ffffff;");
    out
}

/// The colour scheme the user picked.
#[derive(Debug, Clone, Copy, PartialEq, Eq, Structural)]
pub enum ColorSchemeChoice {
    /// Follow the system.
    Default,
    ForceLight,
    ForceDark,
}

/// The colour scheme for a saved setting: `light`, `dark`, anything else
/// follows the system.
pub fn color_scheme_for(key: &str) -> (r: ColorSchemeChoice)
    ensures
        r == if key@ == "light"@ {
            ColorSchemeChoice::ForceLight
        } else if key@ == "dark"@ {
            ColorSchemeChoice::ForceDark
        } else {
            ColorSchemeChoice::Default
        },
{
    let k = chars_of(key);
    if chars_equal(&k, &chars_of("light")) {
        ColorSchemeChoice::ForceLight
    } else if chars_equal(&k, &chars_of("dark")) {
        ColorSchemeChoice::ForceDark
    } else {
        ColorSchemeChoice::Default
    }
}

/// The desktop entry the media-control service names: inside a snap, the
/// snap instance name followed by `_aurora-media-player`; otherwise the
/// application id.
pub fn desktop_entry(snap_instance: Option<&str>) -> (r: String)
    ensures
        snap_instance matches Some(s) ==> r@ == s@ + "_aurora-media-player"@,
        snap_instance is None ==> r@ == "io.github.daniacosta_dev.AuroraMediaPlayer"@,
{
    match snap_instance {
        Some(s) => {
            let mut out = s.to_string();
            out.append("_aurora-media-player");
            out
        },
        None => "io.github.daniacosta_dev.AuroraMediaPlayer".to_string(),
    }
}

} // verus!
