use phipsboot::logging::{DebugCon, DebugconLogger, LoggerFacadeInner};

#[test]
fn set_facade_as_logger() {
    let mut logger_facade = LoggerFacadeInner::new();
    logger_facade.set_stdout_logger(String::from("hello from logger"));
    let (stdout, debugcon) = logger_facade.loggers();
    assert_eq!(stdout.map(|s| s.as_str()), Some("hello from logger"));
    assert!(debugcon.is_none());
}

#[test]
fn facade_with_both_sinks() {
    let mut facade: LoggerFacadeInner<u32> = LoggerFacadeInner::new();
    assert_eq!(facade.loggers(), (None, None));
    facade.set_debugcon(DebugconLogger);
    facade.set_stdout_logger(7);
    assert_eq!(facade.loggers(), (Some(&7), Some(&DebugconLogger)));
    assert_eq!(DebugCon::PORT, 0xe9);
}
