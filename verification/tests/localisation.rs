use dart_unused::localisation::{all_localisation, localisation};

    #[test]
    fn test_localisation() {
        let input = "S.of(context).app_name";
        let expected = "app_name";
        let (_, actual) = localisation("S", input).unwrap();
        assert_eq!(expected, actual);

        let input = "S.current.app_name";
        let expected = "app_name";
        let (_, actual) = localisation("S", input).unwrap();
        assert_eq!(expected, actual);

        let input = "S.maybeOf(context)?.app_name";
        let expected = "app_name";
        let (_, actual) = localisation("S", input).unwrap();
        assert_eq!(expected, actual);
    }

    #[test]
    fn multi_line_test() {
        let input = r#"""S.of(context)
            .app_name"""#;
        let expected = "app_name";
        let (_, actual) = localisation("S", input).unwrap();
        assert_eq!(expected, actual);

        let input = r#"""S.current
        .app_name"""#;
        let expected = "app_name";
        let (_, actual) = localisation("S", input).unwrap();
        assert_eq!(expected, actual);

        let input = r#"""S.maybeOf(context)
        ?.app_name"""#;
        let expected = "app_name";
        let (_, actual) = localisation("S", input).unwrap();
        assert_eq!(expected, actual);

        let input = r#"""S
        .of(context)
            .app_name"""#;
        let expected = "app_name";
        let (_, actual) = localisation("S", input).unwrap();
        assert_eq!(expected, actual);

        let input = r#"""S
        .current
        .app_name"""#;
        let expected = "app_name";
        let (_, actual) = localisation("S", input).unwrap();
        assert_eq!(expected, actual);

        let input = r#"""S
        .maybeOf(context)
        ?.app_name"""#;
        let expected = "app_name";
        let (_, actual) = localisation("S", input).unwrap();
        assert_eq!(expected, actual);
    }

    #[test]
    fn test_multiple() {
        let input = r#""S.of(context).app_name
        S.of(context).app_name""#;
        let expected = vec!["app_name", "app_name"];
        let (_, actual) = all_localisation("S", input);
        assert_eq!(expected, actual);

        let input = r#""S.current.app_name
        S.current.app_name""#;
        let expected = vec!["app_name", "app_name"];
        let (_, actual) = all_localisation("S", input);
        assert_eq!(expected, actual);

        let input = r#""S.maybeOf(context)?.app_name
        S.maybeOf(context)?.app_name""#;
        let expected = vec!["app_name", "app_name"];
        let (_, actual) = all_localisation("S", input);
        assert_eq!(expected, actual);
        let input = r#""S.of(context).app_name, S.of(context)
        .app_name
        S.maybeOf(context)?.app_name""#;
        let expected = vec!["app_name", "app_name", "app_name"];
        let (_, actual) = all_localisation("S", input);
        assert_eq!(expected, actual);
    }

    #[test]
    fn test_multiple_as_if_labels() {
        let input = r#""t: S.of(context).app_name,
        k: S.of(context).app_name""#;
        let expected = vec!["app_name", "app_name"];
        let (_, actual) = all_localisation("S", input);
        assert_eq!(expected, actual);

        let input = r#""t: S.current.app_name,
        K:S.current.app_name""#;
        let expected = vec!["app_name", "app_name"];
        let (_, actual) = all_localisation("S", input);
        assert_eq!(expected, actual);

        let input = r#""t:S.maybeOf(context)?.app_name
        e:S.maybeOf(context)?.app_name""#;
        let expected = vec!["app_name", "app_name"];
        let (_, actual) = all_localisation("S", input);
        assert_eq!(expected, actual);
        let input = r#""d: S.of(context).app_name, k:S.of(context)
        .app_name
        s: S.maybeOf(context)?.app_name""#;
        let expected = vec!["app_name", "app_name", "app_name"];
        let (_, actual) = all_localisation("S", input);
        assert_eq!(expected, actual);
    }
