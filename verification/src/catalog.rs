//! The event catalog: the fixed mapping from internal event codes (quoted
//! dotted identifiers) to display names, and the error-class convention —
//! an event is an error event exactly when its display name contains the
//! localized error marker.

use vstd::prelude::*;
use crate::text::{has_substring, to_chars, contains_chars};

verus! {

/// The view of an optional owned name.
pub open spec fn opt_name_view(o: Option<String>) -> Option<Seq<char>> {
    match o {
        Some(s) => Some(s@),
        None => None,
    }
}

/// Display name of a catalogued event code; codes outside the catalog
/// have none.
pub open spec fn catalog_display_name(code: Seq<char>) -> Option<Seq<char>> {
    if code == "\"_$Session$_.Start\""@ {
        Some("Сеанс. Начало"@)
    } else if code == "\"_$Session$_.Authentication\""@ {
        Some("Сеанс. Аутентификация"@)
    } else if code == "\"_$Session$_.Finish\""@ {
        Some("Сеанс. Завершение"@)
    } else if code == "\"_$InfoBase$_.ConfigUpdate\""@ {
        Some("Информационная база. Изменение конфигурации"@)
    } else if code == "\"_$InfoBase$_.DBConfigUpdate\""@ {
        Some("Информационная база. Изменение конфигурации базы данных"@)
    } else if code == "\"_$InfoBase$_.EventLogSettingsUpdate\""@ {
        Some("Информационная база. Изменение параметров журнала регистрации"@)
    } else if code == "\"_$InfoBase$_.InfoBaseAdmParamsUpdate\""@ {
        Some("Информационная база. Изменение параметров информационной базы"@)
    } else if code == "\"_$InfoBase$_.MasterNodeUpdate\""@ {
        Some("Информационная база. Изменение главного узла"@)
    } else if code == "\"_$InfoBase$_.RegionalSettingsUpdate\""@ {
        Some("Информационная база. Изменение региональных установок"@)
    } else if code == "\"_$InfoBase$_.TARInfo\""@ {
        Some("Тестирование и исправление. Сообщение"@)
    } else if code == "\"_$InfoBase$_.TARMess\""@ {
        Some("Тестирование и исправление. Предупреждение"@)
    } else if code == "\"_$InfoBase$_.TARImportant\""@ {
        Some("Тестирование и исправление. Ошибка"@)
    } else if code == "\"_$Data$_.New\""@ {
        Some("Данные. Добавление"@)
    } else if code == "\"_$Data$_.Update\""@ {
        Some("Данные. Изменение"@)
    } else if code == "\"_$Data$_.Delete\""@ {
        Some("Данные. Удаление"@)
    } else if code == "\"_$Data$_.TotalsPeriodUpdate\""@ {
        Some("Данные. Изменение периода рассчитанных итогов"@)
    } else if code == "\"_$Data$_.Post\""@ {
        Some("Данные. Проведение"@)
    } else if code == "\"_$Data$_.Unpost\""@ {
        Some("Данные. Отмена проведения"@)
    } else if code == "\"_$User$_.New\""@ {
        Some("Пользователи. Добавление"@)
    } else if code == "\"_$User$_.Update\""@ {
        Some("Пользователи. Изменение"@)
    } else if code == "\"_$User$_.Delete\""@ {
        Some("Пользователи. Удаление"@)
    } else if code == "\"_$Job$_.Start\""@ {
        Some("Фоновое задание. Запуск"@)
    } else if code == "\"_$Job$_.Succeed\""@ {
        Some("Фоновое задание. Успешное завершение"@)
    } else if code == "\"_$Job$_.Fail\""@ {
        Some("Фоновое задание. Ошибка выполнения"@)
    } else if code == "\"_$Job$_.Cancel\""@ {
        Some("Фоновое задание. Отмена"@)
    } else if code == "\"_$PerformError$_\""@ {
        Some("Ошибка выполнения"@)
    } else if code == "\"_$Transaction$_.Begin\""@ {
        Some("Транзакция. Начало"@)
    } else if code == "\"_$Transaction$_.Commit\""@ {
        Some("Транзакция. Фиксация"@)
    } else if code == "\"_$Transaction$_.Rollback\""@ {
        Some("Транзакция. Отмена"@)
    } else {
        None
    }
}

fn str_eq(a: &String, b: &str) -> (r: bool)
    ensures
        r == (a@ == b@),
{
    let bo = String::from_str(b);
    *a == bo
}

/// Resolves a catalogued event code to its display name.
pub fn display_name(code: &String) -> (r: Option<String>)
    ensures
        opt_name_view(r) == catalog_display_name(code@),
{
    if str_eq(code, "\"_$Session$_.Start\"") {
        Some(String::from_str("Сеанс. Начало"))
    } else if str_eq(code, "\"_$Session$_.Authentication\"") {
        Some(String::from_str("Сеанс. Аутентификация"))
    } else if str_eq(code, "\"_$Session$_.Finish\"") {
        Some(String::from_str("Сеанс. Завершение"))
    } else if str_eq(code, "\"_$InfoBase$_.ConfigUpdate\"") {
        Some(String::from_str("Информационная база. Изменение конфигурации"))
    } else if str_eq(code, "\"_$InfoBase$_.DBConfigUpdate\"") {
        Some(String::from_str("Информационная база. Изменение конфигурации базы данных"))
    } else if str_eq(code, "\"_$InfoBase$_.EventLogSettingsUpdate\"") {
        Some(String::from_str("Информационная база. Изменение параметров журнала регистрации"))
    } else if str_eq(code, "\"_$InfoBase$_.InfoBaseAdmParamsUpdate\"") {
        Some(String::from_str("Информационная база. Изменение параметров информационной базы"))
    } else if str_eq(code, "\"_$InfoBase$_.MasterNodeUpdate\"") {
        Some(String::from_str("Информационная база. Изменение главного узла"))
    } else if str_eq(code, "\"_$InfoBase$_.RegionalSettingsUpdate\"") {
        Some(String::from_str("Информационная база. Изменение региональных установок"))
    } else if str_eq(code, "\"_$InfoBase$_.TARInfo\"") {
        Some(String::from_str("Тестирование и исправление. Сообщение"))
    } else if str_eq(code, "\"_$InfoBase$_.TARMess\"") {
        Some(String::from_str("Тестирование и исправление. Предупреждение"))
    } else if str_eq(code, "\"_$InfoBase$_.TARImportant\"") {
        Some(String::from_str("Тестирование и исправление. Ошибка"))
    } else if str_eq(code, "\"_$Data$_.New\"") {
        Some(String::from_str("Данные. Добавление"))
    } else if str_eq(code, "\"_$Data$_.Update\"") {
        Some(String::from_str("Данные. Изменение"))
    } else if str_eq(code, "\"_$Data$_.Delete\"") {
        Some(String::from_str("Данные. Удаление"))
    } else if str_eq(code, "\"_$Data$_.TotalsPeriodUpdate\"") {
        Some(String::from_str("Данные. Изменение периода рассчитанных итогов"))
    } else if str_eq(code, "\"_$Data$_.Post\"") {
        Some(String::from_str("Данные. Проведение"))
    } else if str_eq(code, "\"_$Data$_.Unpost\"") {
        Some(String::from_str("Данные. Отмена проведения"))
    } else if str_eq(code, "\"_$User$_.New\"") {
        Some(String::from_str("Пользователи. Добавление"))
    } else if str_eq(code, "\"_$User$_.Update\"") {
        Some(String::from_str("Пользователи. Изменение"))
    } else if str_eq(code, "\"_$User$_.Delete\"") {
        Some(String::from_str("Пользователи. Удаление"))
    } else if str_eq(code, "\"_$Job$_.Start\"") {
        Some(String::from_str("Фоновое задание. Запуск"))
    } else if str_eq(code, "\"_$Job$_.Succeed\"") {
        Some(String::from_str("Фоновое задание. Успешное завершение"))
    } else if str_eq(code, "\"_$Job$_.Fail\"") {
        Some(String::from_str("Фоновое задание. Ошибка выполнения"))
    } else if str_eq(code, "\"_$Job$_.Cancel\"") {
        Some(String::from_str("Фоновое задание. Отмена"))
    } else if str_eq(code, "\"_$PerformError$_\"") {
        Some(String::from_str("Ошибка выполнения"))
    } else if str_eq(code, "\"_$Transaction$_.Begin\"") {
        Some(String::from_str("Транзакция. Начало"))
    } else if str_eq(code, "\"_$Transaction$_.Commit\"") {
        Some(String::from_str("Транзакция. Фиксация"))
    } else if str_eq(code, "\"_$Transaction$_.Rollback\"") {
        Some(String::from_str("Транзакция. Отмена"))
    } else {
        None
    }
}

/// An event display name marks an error event exactly when it contains the
/// localized error marker.
pub open spec fn is_error_event_name(name: Seq<char>) -> bool {
    has_substring(name, "Ошибка"@)
}

/// Whether a resolved event display name marks an error event.
pub fn name_marks_error(name: &String) -> (b: bool)
    ensures
        b == is_error_event_name(name@),
{
    let h = to_chars(name.as_str());
    let n = to_chars("Ошибка");
    contains_chars(&h, &n)
}

} // verus!
