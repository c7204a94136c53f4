//! PHP settings of domains: the handler and version, and which `php.ini`
//! overrides may be set to which values.
use vstd::prelude::*;
use crate::error::{ApiError, is_error};
use crate::text::{
    ascii_lower, ascii_upper, chars_eq, chars_of, extend_chars, extend_str, is_ascii_alpha,
    is_ascii_digit, lower_ascii, string_of, trim, trim_str, upper_ascii,
};

verus! {

/// A value of the `ini` object of a request, as the settings check sees it:
/// a string, a number (as its JSON text), a boolean, or anything else.
pub enum IniValue {
    Text(String),
    Number(String),
    Bool(bool),
    Other,
}

/// The keys whose value is a size (`128M`).
pub open spec fn size_key(k: Seq<char>) -> bool {
    k == "memory_limit"@ || k == "upload_max_filesize"@ || k == "post_max_size"@ || k == "realpath_cache_size"@
}

/// The keys whose value is a whole number.
pub open spec fn int_key(k: Seq<char>) -> bool {
    k == "max_execution_time"@ || k == "max_input_time"@ || k == "max_input_vars"@
}

/// The keys whose value is on or off.
pub open spec fn bool_key(k: Seq<char>) -> bool {
    k == "opcache.enable"@
}

/// The text of a value: a string as it is, a number as written, a boolean as `1` or `0`.
pub open spec fn ini_text(v: IniValue) -> Option<Seq<char>> {
    match v {
        IniValue::Text(s) => Some(s@),
        IniValue::Number(n) => Some(n@),
        IniValue::Bool(b) => Some(if b { seq!['1'] } else { seq!['0'] }),
        IniValue::Other => None,
    }
}

/// The position of the first ASCII letter, or -1.
pub open spec fn first_alpha(s: Seq<char>) -> int
    decreases s.len(),
{
    if s.len() == 0 {
        -1
    } else if is_ascii_alpha(s[0]) {
        0
    } else {
        let k = first_alpha(s.drop_first());
        if k < 0 {
            -1
        } else {
            k + 1
        }
    }
}

proof fn lemma_first_alpha(s: Seq<char>)
    ensures
        -1 <= first_alpha(s) < s.len(),
        first_alpha(s) >= 0 ==> is_ascii_alpha(s[first_alpha(s)]),
        forall|i: int| 0 <= i < s.len() && (first_alpha(s) < 0 || i < first_alpha(s)) ==> !is_ascii_alpha(
            #[trigger] s[i],
        ),
    decreases s.len(),
{
    if s.len() > 0 {
        lemma_first_alpha(s.drop_first());
        assert forall|i: int| 0 <= i < s.len() && (first_alpha(s) < 0 || i < first_alpha(s)) implies !is_ascii_alpha(
            #[trigger] s[i],
        ) by {
            if i > 0 {
                assert(s[i] == s.drop_first()[i - 1]);
            }
        }
    }
}

/// The number of a size: the text before the first letter.
pub open spec fn size_number(s: Seq<char>) -> Seq<char> {
    let k = first_alpha(s);
    if k < 0 {
        s
    } else {
        s.take(k)
    }
}

/// The unit of a size: the text between the first letter and the next one.
pub open spec fn size_unit(s: Seq<char>) -> Seq<char> {
    let k = first_alpha(s);
    if k < 0 {
        Seq::empty()
    } else {
        let rest = s.skip(k + 1);
        let j = first_alpha(rest);
        if j < 0 {
            rest
        } else {
            rest.take(j)
        }
    }
}

/// A size, once trimmed and upper-cased: a number of ASCII digits, and a
/// unit that is empty or one of `K`, `M`, `G`.
pub open spec fn size_ok(v: Seq<char>) -> bool {
    let t = ascii_upper(trim(v));
    let num = size_number(t);
    let unit = size_unit(t);
    &&& num.len() > 0
    &&& forall|i: int| 0 <= i < num.len() ==> is_ascii_digit(#[trigger] num[i])
    &&& (unit.len() == 0 || unit == seq!['K'] || unit == seq!['M'] || unit == seq!['G'])
}

/// A whole number: ASCII digits once trimmed, at least one.
pub open spec fn int_ok(v: Seq<char>) -> bool {
    let t = trim(v);
    t.len() > 0 && forall|i: int| 0 <= i < t.len() ==> is_ascii_digit(#[trigger] t[i])
}

/// On or off: `1`, `0`, `on`, `off`, `true` or `false`, trimmed, ignoring ASCII case.
pub open spec fn bool_ok(v: Seq<char>) -> bool {
    let l = ascii_lower(trim(v));
    l == "1"@ || l == "0"@ || l == "on"@ || l == "off"@ || l == "true"@ || l == "false"@
}

/// Why one setting is refused (400), if it is.
pub open spec fn setting_refusal(k: Seq<char>, v: IniValue) -> Option<Seq<char>> {
    match ini_text(v) {
        None => Some("Invalid value for "@ + k),
        Some(t) => if size_key(k) {
            if size_ok(t) {
                None
            } else {
                Some(k + " must be a size like 128M"@)
            }
        } else if int_key(k) {
            if int_ok(t) {
                None
            } else {
                Some(k + " must be an integer"@)
            }
        } else if bool_key(k) {
            if bool_ok(t) {
                None
            } else {
                Some(k + " must be On or Off"@)
            }
        } else {
            Some(k + " is not an editable PHP setting"@)
        },
    }
}

/// The refusal of the first refused setting, in order, if any.
pub open spec fn ini_refusal(entries: Seq<(String, IniValue)>) -> Option<Seq<char>>
    decreases entries.len(),
{
    if entries.len() == 0 {
        None
    } else {
        match setting_refusal(entries[0].0@, entries[0].1) {
            Some(m) => Some(m),
            None => ini_refusal(entries.drop_first()),
        }
    }
}

fn all_digits_exec(s: &Vec<char>) -> (b: bool)
    ensures
        b == forall|i: int| 0 <= i < s@.len() ==> is_ascii_digit(#[trigger] s@[i]),
{
    let mut i: usize = 0;
    while i < s.len()
        invariant
            i <= s.len(),
            forall|j: int| 0 <= j < i ==> is_ascii_digit(#[trigger] s@[j]),
        decreases s.len() - i,
    {
        if !crate::text::ascii_digit(s[i]) {
            return false;
        }
        i += 1;
    }
    true
}

fn first_alpha_exec(s: &Vec<char>) -> (r: Option<usize>)
    ensures
        match r {
            Some(k) => first_alpha(s@) == k,
            None => first_alpha(s@) == -1,
        },
{
    proof {
        lemma_first_alpha(s@);
    }
    let mut i: usize = 0;
    while i < s.len()
        invariant
            i <= s.len(),
            forall|j: int| 0 <= j < i ==> !is_ascii_alpha(#[trigger] s@[j]),
        decreases s.len() - i,
    {
        if crate::text::ascii_alpha(s[i]) {
            proof {
                lemma_first_alpha(s@);
                let k = first_alpha(s@);
                if k >= 0 && k < i {
                    assert(!is_ascii_alpha(s@[k]));
                }
                if k < 0 || k > i {
                    assert(!is_ascii_alpha(s@[i as int]));
                }
            }
            return Some(i);
        }
        i += 1;
    }
    proof {
        lemma_first_alpha(s@);
        let k = first_alpha(s@);
        if k >= 0 {
            assert(is_ascii_alpha(s@[k]));
        }
    }
    None
}

fn size_ok_exec(v: &Vec<char>) -> (b: bool)
    ensures
        b == size_ok(v@),
{
    let t = upper_ascii(&crate::text::trim_chars(v));
    let (num, unit) = match first_alpha_exec(&t) {
        None => (crate::text::slice_vec(&t, 0, t.len()), Vec::new()),
        Some(k) => {
            proof {
                lemma_first_alpha(t@);
            }
            let rest = crate::text::slice_vec(&t, k + 1, t.len());
            assert(rest@ =~= t@.skip(k + 1));
            let unit = match first_alpha_exec(&rest) {
                None => rest,
                Some(j) => {
                    proof {
                        lemma_first_alpha(rest@);
                    }
                    let u = crate::text::slice_vec(&rest, 0, j);
                    assert(u@ =~= rest@.take(j as int));
                    u
                },
            };
            let n = crate::text::slice_vec(&t, 0, k);
            assert(n@ =~= t@.take(k as int));
            (n, unit)
        },
    };
    assert(t@.subrange(0, t@.len() as int) =~= t@);
    let unit_ok = unit.len() == 0 || (unit.len() == 1 && (unit[0] == 'K' || unit[0] == 'M' || unit[0] == 'G'));
    proof {
        if unit@.len() == 1 {
            if unit@[0] == 'K' {
                assert(unit@ =~= seq!['K']);
            }
            if unit@[0] == 'M' {
                assert(unit@ =~= seq!['M']);
            }
            if unit@[0] == 'G' {
                assert(unit@ =~= seq!['G']);
            }
        }
    }
    num.len() > 0 && all_digits_exec(&num) && unit_ok
}

fn is_lit(s: &Vec<char>, lit: &str) -> (b: bool)
    ensures
        b == (s@ == lit@),
{
    chars_eq(s, &chars_of(lit))
}

fn refusal_message(k: &str, suffix: &str) -> (e: ApiError)
    ensures
        is_error(e, 400, k@ + suffix@),
{
    let mut m = chars_of(k);
    extend_str(&mut m, suffix);
    ApiError::from_chars(400, &m)
}

/// Checks one setting.
pub fn check_setting(k: &str, v: &IniValue) -> (r: Result<(), ApiError>)
    ensures
        match setting_refusal(k@, *v) {
            None => r is Ok,
            Some(msg) => r matches Err(e) && is_error(e, 400, msg),
        },
{
    let text: Vec<char> = match v {
        IniValue::Text(s) => chars_of(s.as_str()),
        IniValue::Number(n) => chars_of(n.as_str()),
        IniValue::Bool(b) => {
            let mut t: Vec<char> = Vec::new();
            t.push(if *b { '1' } else { '0' });
            t
        },
        IniValue::Other => {
            let mut m = chars_of("Invalid value for ");
            extend_str(&mut m, k);
            return Err(ApiError::from_chars(400, &m));
        },
    };
    proof {
        if let IniValue::Bool(b) = *v {
            assert(text@ =~= (if b { seq!['1'] } else { seq!['0'] }));
        }
    }
    let kc = chars_of(k);
    if is_lit(&kc, "memory_limit") || is_lit(&kc, "upload_max_filesize") || is_lit(&kc, "post_max_size")
        || is_lit(&kc, "realpath_cache_size") {
        if size_ok_exec(&text) {
            Ok(())
        } else {
            Err(refusal_message(k, " must be a size like 128M"))
        }
    } else if is_lit(&kc, "max_execution_time") || is_lit(&kc, "max_input_time") || is_lit(&kc, "max_input_vars") {
        let t = crate::text::trim_chars(&text);
        if t.len() > 0 && all_digits_exec(&t) {
            Ok(())
        } else {
            Err(refusal_message(k, " must be an integer"))
        }
    } else if is_lit(&kc, "opcache.enable") {
        let l = lower_ascii(&crate::text::trim_chars(&text));
        if is_lit(&l, "1") || is_lit(&l, "0") || is_lit(&l, "on") || is_lit(&l, "off") || is_lit(&l, "true")
            || is_lit(&l, "false") {
            Ok(())
        } else {
            Err(refusal_message(k, " must be On or Off"))
        }
    } else {
        Err(refusal_message(k, " is not an editable PHP setting"))
    }
}

/// Checks the `ini` overrides of a request, in order; the first refused
/// setting is answered.
pub fn validate_ini(entries: &Vec<(String, IniValue)>) -> (r: Result<(), ApiError>)
    ensures
        match ini_refusal(entries@) {
            None => r is Ok,
            Some(msg) => r matches Err(e) && is_error(e, 400, msg),
        },
{
    let mut i: usize = 0;
    assert(entries@.skip(0) =~= entries@);
    while i < entries.len()
        invariant
            i <= entries@.len(),
            ini_refusal(entries@) == ini_refusal(entries@.skip(i as int)),
        decreases entries.len() - i,
    {
        let ghost rest = entries@.skip(i as int);
        assert(rest[0] == entries@[i as int]);
        assert(rest.drop_first() =~= entries@.skip(i + 1));
        match check_setting(entries[i].0.as_str(), &entries[i].1) {
            Err(e) => {
                return Err(e);
            },
            Ok(()) => {},
        }
        i += 1;
    }
    Ok(())
}

/// The version and handler of a domain's PHP: the version (trimmed) is
/// required; the handler is `system` by default, or `fpm`.
pub fn check_php_choice(version: &str, handler: Option<&str>) -> (r: Result<(String, String), ApiError>)
    ensures
        trim(version@).len() == 0 ==> (r matches Err(e) && is_error(e, 400, "A PHP version is required"@)),
        trim(version@).len() > 0 ==> match handler {
            None => r matches Ok((v, h)) && v@ == trim(version@) && h@ == "system"@,
            Some(h) => if h@ == "system"@ || h@ == "fpm"@ {
                r matches Ok((v, hh)) && v@ == trim(version@) && hh@ == h@
            } else {
                r matches Err(e) && is_error(e, 400, "Handler must be system or fpm"@)
            },
        },
{
    let v = trim_str(version);
    if v.len() == 0 {
        return Err(ApiError::new(400, "A PHP version is required"));
    }
    let h: Vec<char> = match handler {
        Some(h) => chars_of(h),
        None => chars_of("system"),
    };
    if !is_lit(&h, "system") && !is_lit(&h, "fpm") {
        return Err(ApiError::new(400, "Handler must be system or fpm"));
    }
    Ok((string_of(&v), string_of(&h)))
}

} // verus!
